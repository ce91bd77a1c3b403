//! What a run may do: what must hold before it may cancel or place, what it
//! announces, and which passes it starts.
use crate::args::{pairs_of, Args, ArgsView};
use crate::group::texts;
use crate::text::same;
use crate::venue::Venue;
use vstd::prelude::*;
use vstd::string::StringExecFns;

verus! {

// -------------------------------------------------------------- credentials

/// The value of the first pair whose key is one of two.
pub open spec fn value_of(
    pairs: Seq<(Seq<char>, Seq<char>)>,
    a: Seq<char>,
    b: Seq<char>,
) -> Option<Seq<char>>
    decreases pairs.len(),
{
    if pairs.len() == 0 {
        None
    } else if pairs[0].0 == a || pairs[0].0 == b {
        Some(pairs[0].1)
    } else {
        value_of(pairs.drop_first(), a, b)
    }
}

proof fn lemma_value_skip(
    pairs: Seq<(Seq<char>, Seq<char>)>,
    a: Seq<char>,
    b: Seq<char>,
    k: int,
)
    requires
        0 <= k <= pairs.len(),
        forall|i: int| 0 <= i < k ==> (#[trigger] pairs[i]).0 != a && pairs[i].0 != b,
    ensures
        value_of(pairs, a, b) == value_of(pairs.skip(k), a, b),
    decreases k,
{
    if k == 0 {
        assert(pairs.skip(0) =~= pairs);
    } else {
        assert(pairs[0].0 != a && pairs[0].0 != b);
        let rest = pairs.drop_first();
        assert forall|i: int| 0 <= i < k - 1 implies (#[trigger] rest[i]).0 != a && rest[i].0
            != b by {
            assert(rest[i] == pairs[i + 1]);
        }
        lemma_value_skip(rest, a, b, k - 1);
        assert(rest.skip(k - 1) =~= pairs.skip(k));
    }
}

fn find_value<'a>(pairs: &'a Vec<(String, String)>, a: &str, b: &str) -> (r: Option<&'a str>)
    ensures
        match value_of(pairs_of(pairs@), a@, b@) {
            Some(v) => r matches Some(t) && t@ == v,
            None => r is None,
        },
{
    let ghost all = pairs_of(pairs@);
    let mut i: usize = 0;
    while i < pairs.len()
        invariant
            i <= pairs.len(),
            all == pairs_of(pairs@),
            forall|k: int| 0 <= k < i ==> (#[trigger] all[k]).0 != a@ && all[k].0 != b@,
        decreases pairs.len() - i,
    {
        if same(pairs[i].0.as_str(), a) || same(pairs[i].0.as_str(), b) {
            proof {
                lemma_value_skip(all, a@, b@, i as int);
                assert(all.skip(i as int)[0] == all[i as int]);
            }
            return Some(pairs[i].1.as_str());
        }
        i = i + 1;
    }
    proof {
        lemma_value_skip(all, a@, b@, all.len() as int);
        assert(all.skip(all.len() as int).len() == 0);
    }
    None
}

/// The suffix of the Kalshi credentials.
pub fn kalshi_suffix<'a>(cred_suffix: &'a Vec<(String, String)>) -> (r: Option<&'a str>)
    ensures
        match value_of(pairs_of(cred_suffix@), "kalshi"@, "kalshi"@) {
            Some(v) => r matches Some(t) && t@ == v,
            None => r is None,
        },
{
    find_value(cred_suffix, "kalshi", "kalshi")
}

/// The suffix of the PM-US credentials: under its short name, or else under its
/// long one.
pub open spec fn pmus_key(pairs: Seq<(Seq<char>, Seq<char>)>) -> Option<Seq<char>> {
    match value_of(pairs, "pmus"@, "pmus"@) {
        Some(v) => Some(v),
        None => value_of(pairs, "polymarket_us"@, "polymarket_us"@),
    }
}

/// The suffix of the PM-US credentials.
pub fn pmus_suffix<'a>(cred_suffix: &'a Vec<(String, String)>) -> (r: Option<&'a str>)
    ensures
        match pmus_key(pairs_of(cred_suffix@)) {
            Some(v) => r matches Some(t) && t@ == v,
            None => r is None,
        },
{
    match find_value(cred_suffix, "pmus", "pmus") {
        Some(v) => Some(v),
        None => find_value(cred_suffix, "polymarket_us", "polymarket_us"),
    }
}

/// The suffix of the credentials that the PM-US fill feed reads with: the first
/// that stands under either of its names.
pub fn pmus_feed_suffix<'a>(cred_suffix: &'a Vec<(String, String)>) -> (r: Option<&'a str>)
    ensures
        match value_of(pairs_of(cred_suffix@), "pmus"@, "polymarket_us"@) {
            Some(v) => r matches Some(t) && t@ == v,
            None => r is None,
        },
{
    find_value(cred_suffix, "pmus", "polymarket_us")
}

/// The names of the Kalshi credentials: the key id and the key.
pub open spec fn kalshi_names(suffix: Option<Seq<char>>) -> (Seq<char>, Seq<char>) {
    match suffix {
        Some(s) => ("kalshi_"@ + s + "_api_key_id"@, "kalshi_"@ + s + "_private_key.pem"@),
        None => ("kalshi_api_key_id"@, "kalshi_private_key.pem"@),
    }
}

pub open spec fn opt_text(s: Option<&str>) -> Option<Seq<char>> {
    match s {
        Some(t) => Some(t@),
        None => None,
    }
}

/// The names of the Kalshi credentials.
pub fn kalshi_credentials(suffix: Option<&str>) -> (r: (String, String))
    ensures
        (r.0@, r.1@) == kalshi_names(opt_text(suffix)),
{
    match suffix {
        Some(s) => {
            let mut id: String = "kalshi_".to_owned();
            id.append(s);
            id.append("_api_key_id");
            let mut pem: String = "kalshi_".to_owned();
            pem.append(s);
            pem.append("_private_key.pem");
            (id, pem)
        },
        None => ("kalshi_api_key_id".to_owned(), "kalshi_private_key.pem".to_owned()),
    }
}

/// The names of the PM-US credentials: the key id and the key.
pub open spec fn pmus_names(suffix: Option<Seq<char>>) -> (Seq<char>, Seq<char>) {
    match suffix {
        Some(s) => (
            "polymarket_usa_"@ + s + "_key_id"@,
            "polymarket_usa_"@ + s + "_private_key"@,
        ),
        None => ("polymarket_usa_key_id"@, "polymarket_usa_private_key"@),
    }
}

/// The names of the PM-US credentials.
pub fn pmus_credentials(suffix: Option<&str>) -> (r: (String, String))
    ensures
        (r.0@, r.1@) == pmus_names(opt_text(suffix)),
{
    match suffix {
        Some(s) => {
            let mut id: String = "polymarket_usa_".to_owned();
            id.append(s);
            id.append("_key_id");
            let mut key: String = "polymarket_usa_".to_owned();
            key.append(s);
            key.append("_private_key");
            (id, key)
        },
        None => ("polymarket_usa_key_id".to_owned(), "polymarket_usa_private_key".to_owned()),
    }
}

// ------------------------------------------------------------ preconditions

/// A list with one more text, where a condition holds.
pub open spec fn noted(list: Seq<Seq<char>>, when: bool, text: Seq<char>) -> Seq<Seq<char>> {
    if when {
        list.push(text)
    } else {
        list
    }
}

fn note(list: &mut Vec<String>, when: bool, text: String)
    ensures
        texts(final(list)@) == noted(texts(old(list)@), when, text@),
{
    let ghost was = texts(list@);
    if when {
        list.push(text);
        assert(texts(list@) =~= was.push(text@));
    }
}

/// What stands in the way of cancelling: a run on a tape, and credentials that
/// cannot be had; nothing else.
pub open spec fn cancel_missing(
    bench: bool,
    kalshi: Option<Seq<char>>,
    pmus: Option<Seq<char>>,
) -> Seq<Seq<char>> {
    let a = noted(Seq::empty(), bench, "bench/replay mode can never touch a venue"@);
    let b = match kalshi {
        Some(e) => a.push("kalshi: "@ + e),
        None => a,
    };
    match pmus {
        Some(e) => b.push("polymarket_us: "@ + e),
        None => b,
    }
}

/// What stands in the way of cancelling, of what kept either venue's handle from
/// being made.
pub fn cancel_preconditions(bench: bool, kalshi: Option<&str>, pmus: Option<&str>) -> (r: Vec<
    String,
>)
    ensures
        texts(r@) == cancel_missing(bench, opt_text(kalshi), opt_text(pmus)),
{
    let mut v: Vec<String> = Vec::new();
    assert(texts(v@) =~= Seq::<Seq<char>>::empty());
    note(&mut v, bench, "bench/replay mode can never touch a venue".to_owned());
    if let Some(e) = kalshi {
        let mut s: String = "kalshi: ".to_owned();
        s.append(e);
        note(&mut v, true, s);
    }
    if let Some(e) = pmus {
        let mut s: String = "polymarket_us: ".to_owned();
        s.append(e);
        note(&mut v, true, s);
    }
    v
}

/// What stands in the way of placing, beside that: no live feed, no cash, no
/// watch on the feed, and a ledger that cannot be read.
pub open spec fn place_missing(a: ArgsView, ledger: Option<Seq<char>>) -> Seq<Seq<char>> {
    let x = noted(
        Seq::empty(),
        a.feed.socket is None,
        "no --socket: orders require the live feed"@,
    );
    let y = noted(
        x,
        a.orders.balances.len() == 0,
        "no --balance: the risk gate would see $0 cash and refuse everything anyway"@,
    );
    let z = noted(
        y,
        a.files.health.len() == 0,
        "--health disabled: quoting on an unwatched feed"@,
    );
    match ledger {
        Some(e) => z.push("trade ledger unreadable, so exposure is unknown: "@ + e),
        None => z,
    }
}

/// What stands in the way of placing; `ledger` is why the ledger cannot be read.
pub fn place_preconditions(args: &Args, ledger: Option<&str>) -> (r: Vec<String>)
    ensures
        texts(r@) == place_missing(args@, opt_text(ledger)),
{
    let mut v: Vec<String> = Vec::new();
    assert(texts(v@) =~= Seq::<Seq<char>>::empty());
    note(
        &mut v,
        args.feed.socket.is_none(),
        "no --socket: orders require the live feed".to_owned(),
    );
    note(
        &mut v,
        args.orders.balances.len() == 0,
        "no --balance: the risk gate would see $0 cash and refuse everything anyway".to_owned(),
    );
    note(
        &mut v,
        args.files.health.as_str().is_empty(),
        "--health disabled: quoting on an unwatched feed".to_owned(),
    );
    if let Some(e) = ledger {
        let mut s: String = "trade ledger unreadable, so exposure is unknown: ".to_owned();
        s.append(e);
        note(&mut v, true, s);
    }
    v
}

/// What must be checked before a run may touch a venue.
#[derive(Clone, Copy, Debug, PartialEq, Eq, Structural)]
pub enum Arming {
    /// It may not, and reads no credentials.
    Off,
    /// The preconditions of placing are reported, and nothing is sent.
    Report,
    /// It only cancels: the preconditions of cancelling.
    Cancel,
    /// The preconditions of placing, and where they hold those of cancelling.
    Place,
}

/// What must be checked before a run may touch a venue. One flag alone only
/// reports, so that checking can never place an order by accident.
pub fn arming(args: &Args) -> (r: Arming)
    ensures
        r == (if !args.orders.enable_orders {
            Arming::Off
        } else if args.orders.sweep_only {
            Arming::Cancel
        } else if !args.orders.confirm_live {
            Arming::Report
        } else {
            Arming::Place
        }),
{
    if !args.orders.enable_orders {
        Arming::Off
    } else if args.orders.sweep_only {
        Arming::Cancel
    } else if !args.orders.confirm_live {
        Arming::Report
    } else {
        Arming::Place
    }
}

/// What stands in the way of placing, of the preconditions of placing and of
/// those of cancelling, which are looked at only where the first hold.
pub fn order_preconditions(place: Vec<String>, cancel: Vec<String>) -> (r: Vec<String>)
    ensures
        r@ == (if place@.len() > 0 {
            place@
        } else {
            cancel@
        }),
{
    if place.len() > 0 {
        place
    } else {
        cancel
    }
}

// -------------------------------------------------------------- the sweep

/// Under whose key a venue's orders are cancelled.
pub open spec fn key_text(suffix: Option<Seq<char>>) -> Seq<char> {
    match suffix {
        Some(s) => "suffix `"@ + s + "`"@,
        None => "PRIMARY key — SHARED WITH THE PYTHON STACK"@,
    }
}

fn key_name(suffix: Option<&str>) -> (r: String)
    ensures
        r@ == key_text(opt_text(suffix)),
{
    match suffix {
        Some(s) => {
            let mut t: String = "suffix `".to_owned();
            t.append(s);
            t.append("`");
            t
        },
        None => "PRIMARY key — SHARED WITH THE PYTHON STACK".to_owned(),
    }
}

/// What a run that only cancels is about to destroy, and under whose key.
pub open spec fn blast_radius(
    cred_suffix: Seq<(Seq<char>, Seq<char>)>,
    unscoped: bool,
) -> Seq<Seq<char>> {
    seq![
        "[exec] --sweep-only DESTROYS REAL RESTING ORDERS. Keys in use:"@,
        "[exec]   kalshi        -> "@ + key_text(value_of(cred_suffix, "kalshi"@, "kalshi"@)),
        if unscoped {
            "[exec]     --sweep-unscoped IS SET: THE WHOLE ACCOUNT, including every"@
        } else {
            "[exec]     scoped to ids THIS STACK minted (m…/h…/t…/rehearse-…/sweep-…);"@
        },
        if unscoped {
            "[exec]     order another workstream placed under this key."@
        } else {
            "[exec]     another workstream's orders under this key are LEFT RESTING."@
        },
        "[exec]   polymarket_us -> "@ + key_text(
            value_of(cred_suffix, "pmus"@, "polymarket_us"@),
        ),
        "[exec]     THE WHOLE ACCOUNT — PM-US carries no id of ours to scope by,"@,
        "[exec]     so this cancels orders this stack never placed."@,
    ]
}

/// What a run that only cancels is about to destroy, and under whose key.
pub fn sweep_only_blast_radius(cred_suffix: &Vec<(String, String)>, unscoped: bool) -> (r: Vec<
    String,
>)
    ensures
        texts(r@) == blast_radius(pairs_of(cred_suffix@), unscoped),
{
    let mut v: Vec<String> = Vec::new();
    v.push("[exec] --sweep-only DESTROYS REAL RESTING ORDERS. Keys in use:".to_owned());
    let mut k: String = "[exec]   kalshi        -> ".to_owned();
    k.append(key_name(find_value(cred_suffix, "kalshi", "kalshi")).as_str());
    v.push(k);
    if unscoped {
        v.push(
            "[exec]     --sweep-unscoped IS SET: THE WHOLE ACCOUNT, including every".to_owned(),
        );
        v.push("[exec]     order another workstream placed under this key.".to_owned());
    } else {
        v.push(
            "[exec]     scoped to ids THIS STACK minted (m…/h…/t…/rehearse-…/sweep-…);".to_owned(),
        );
        v.push(
            "[exec]     another workstream's orders under this key are LEFT RESTING.".to_owned(),
        );
    }
    let mut p: String = "[exec]   polymarket_us -> ".to_owned();
    p.append(key_name(find_value(cred_suffix, "pmus", "polymarket_us")).as_str());
    v.push(p);
    v.push("[exec]     THE WHOLE ACCOUNT — PM-US carries no id of ours to scope by,".to_owned());
    v.push("[exec]     so this cancels orders this stack never placed.".to_owned());
    assert(texts(v@) =~= blast_radius(pairs_of(cred_suffix@), unscoped));
    v
}

/// What came of cancelling everything at a venue.
#[derive(Debug)]
pub enum SweepResult {
    Clean,
    /// The cancel went in and nothing was seen resting, but the list could not be
    /// read.
    Unconfirmed { why: String },
    /// Orders may still rest.
    Failed { why: String },
}

/// What the first `n` venues come to: those that could not confirm, or the first
/// that failed.
pub open spec fn swept(venues: Seq<(String, SweepResult)>, n: nat) -> Result<
    Seq<Seq<char>>,
    Seq<char>,
>
    decreases n,
{
    if n == 0 {
        Ok(Seq::empty())
    } else {
        match swept(venues, (n - 1) as nat) {
            Err(e) => Err(e),
            Ok(list) => match venues[n - 1].1 {
                SweepResult::Clean => Ok(list),
                SweepResult::Unconfirmed { why } => Ok(
                    list.push(venues[n - 1].0@ + ": "@ + why@),
                ),
                SweepResult::Failed { why } => Err(venues[n - 1].0@ + ": "@ + why@),
            },
        }
    }
}

proof fn lemma_swept_err(venues: Seq<(String, SweepResult)>, n: nat, m: nat)
    requires
        n <= m,
        swept(venues, n) is Err,
    ensures
        swept(venues, m) == swept(venues, n),
    decreases m,
{
    if n < m {
        lemma_swept_err(venues, n, (m - 1) as nat);
    }
}

/// What the sweep at start comes to, of what came of it at each venue. An engine
/// starts on a book that could not be confirmed, and says so; it does not start
/// on one where orders may rest.
pub fn startup_sweep(venues: &Vec<(String, SweepResult)>) -> (r: Result<Vec<String>, String>)
    ensures
        match swept(venues@, venues@.len()) {
            Ok(list) => r matches Ok(v) && texts(v@) == list,
            Err(e) => r matches Err(t) && t@ == e,
        },
{
    let mut out: Vec<String> = Vec::new();
    let mut i: usize = 0;
    assert(texts(out@) =~= Seq::<Seq<char>>::empty());
    while i < venues.len()
        invariant
            i <= venues.len(),
            swept(venues@, i as nat) == Ok::<Seq<Seq<char>>, Seq<char>>(texts(out@)),
        decreases venues.len() - i,
    {
        match &venues[i].1 {
            SweepResult::Clean => {},
            SweepResult::Unconfirmed { why } => {
                let mut s: String = venues[i].0.clone();
                s.append(": ");
                s.append(why.as_str());
                note(&mut out, true, s);
            },
            SweepResult::Failed { why } => {
                let mut s: String = venues[i].0.clone();
                s.append(": ");
                s.append(why.as_str());
                proof {
                    lemma_swept_err(venues@, (i + 1) as nat, venues@.len());
                }
                return Err(s);
            },
        }
        i = i + 1;
    }
    Ok(out)
}

/// The code with which a refused run ends.
pub const EXIT_REFUSED: i32 = 9;

/// The code with which a run ends whose sweep at start failed.
pub const EXIT_NOT_CLEAN: i32 = 10;

/// The code with which a run that only cancels ends on a book that no venue
/// could confirm.
pub const EXIT_BOOK_UNCONFIRMED: i32 = 18;

/// The code with which a run that only cancels ends: success only where every
/// venue confirmed its book.
pub fn sweep_only_code(unconfirmed: &Vec<String>) -> (r: i32)
    ensures
        r == (if unconfirmed@.len() == 0 {
            0
        } else {
            EXIT_BOOK_UNCONFIRMED as int
        }),
{
    if unconfirmed.len() == 0 {
        0
    } else {
        EXIT_BOOK_UNCONFIRMED
    }
}

// ------------------------------------------------------------------- modes

/// What two flags select, one that acts and one that only shows: nothing, or
/// whether it only shows. Showing wins, as it spends no money.
pub open spec fn selects(act: bool, shadow: bool) -> Option<bool> {
    if act || shadow {
        Some(shadow)
    } else {
        None
    }
}

/// What the two flags of the naked-leg pass select.
pub fn recon_act_shadow(act: bool, shadow: bool) -> (r: Option<bool>)
    ensures
        r == selects(act, shadow),
{
    if act || shadow {
        Some(shadow)
    } else {
        None
    }
}

/// What the two flags of the exit pass select.
pub fn maker_exit_shadow(act: bool, shadow: bool) -> (r: Option<bool>)
    ensures
        r == selects(act, shadow),
{
    if act || shadow {
        Some(shadow)
    } else {
        None
    }
}

/// The state of the order path, in a word.
pub open spec fn mode_text(bench: bool, enable_orders: bool, confirm_live: bool) -> Seq<char> {
    if bench {
        "bench"@
    } else if enable_orders && confirm_live {
        "ARMED"@
    } else {
        "dry-run"@
    }
}

/// The state of the order path, in a word.
pub fn up_mode(bench: bool, enable_orders: bool, confirm_live: bool) -> (r: &'static str)
    ensures
        r@ == mode_text(bench, enable_orders, confirm_live),
{
    if bench {
        "bench"
    } else if enable_orders && confirm_live {
        "ARMED"
    } else {
        "dry-run"
    }
}

/// Whether a run is on a tape or a replay.
pub fn is_bench(args: &Args) -> (r: bool)
    ensures
        r == (args.feed.bench_tape is Some || args.feed.replay_wal is Some),
{
    args.feed.bench_tape.is_some() || args.feed.replay_wal.is_some()
}

/// The source of a run's events.
#[derive(Clone, Copy, Debug, PartialEq, Eq, Structural)]
pub enum Source {
    Tape,
    Replay,
    Socket,
    Nothing,
}

/// The source of a run's events: a tape before a replay, and either before the
/// live feed.
pub fn source(args: &Args) -> (r: Source)
    ensures
        r == (if args.feed.bench_tape is Some {
            Source::Tape
        } else if args.feed.replay_wal is Some {
            Source::Replay
        } else if args.feed.socket is Some {
            Source::Socket
        } else {
            Source::Nothing
        }),
{
    if args.feed.bench_tape.is_some() {
        Source::Tape
    } else if args.feed.replay_wal.is_some() {
        Source::Replay
    } else if args.feed.socket.is_some() {
        Source::Socket
    } else {
        Source::Nothing
    }
}

/// How many orders a second a run may send.
#[derive(Clone, Copy, Debug, PartialEq, Eq, Structural)]
pub enum Rate {
    /// As many as were given.
    Given,
    /// Without a limit.
    Unlimited,
    /// Eight for each venue.
    Eight,
}

/// How many orders a second a run may send; `given` is whether a number that is
/// not negative was given.
pub fn rate(given: bool, bench: bool) -> (r: Rate)
    ensures
        r == (if given {
            Rate::Given
        } else if bench {
            Rate::Unlimited
        } else {
            Rate::Eight
        }),
{
    if given {
        Rate::Given
    } else if bench {
        Rate::Unlimited
    } else {
        Rate::Eight
    }
}

/// How the exit pass starts.
#[derive(Clone, Copy, Debug, PartialEq, Eq, Structural)]
pub enum ExitStart {
    Off,
    /// A handle on one of the venues is missing.
    NoHandles,
    /// No relationship has a leg on both venues.
    NoPairs,
    /// It decides and shows, and stands nobody off.
    Shadow,
    /// It places, and stands others off.
    Armed,
}

/// How the exit pass starts, of its two flags, of the handles on the venues and of
/// how many relationships have a leg on both.
pub open spec fn exit_mode(
    act: bool,
    shadow: bool,
    kalshi: bool,
    pmus: bool,
    pairs: int,
) -> ExitStart {
    match selects(act, shadow) {
        None => ExitStart::Off,
        Some(shows) => if !(kalshi && pmus) {
            ExitStart::NoHandles
        } else if pairs == 0 {
            ExitStart::NoPairs
        } else if shows {
            ExitStart::Shadow
        } else {
            ExitStart::Armed
        },
    }
}

/// How the exit pass starts, of the handles on the venues and of how many
/// relationships have a leg on both. It wants both venues or none.
pub fn exit_start(args: &Args, kalshi: bool, pmus: bool, pairs: usize) -> (r: ExitStart)
    ensures
        r == exit_mode(
            args.modes.maker_exit,
            args.modes.maker_exit_shadow,
            kalshi,
            pmus,
            pairs as int,
        ),
        r == (match selects(args.modes.maker_exit, args.modes.maker_exit_shadow) {
            None => ExitStart::Off,
            Some(shadow) => if !(kalshi && pmus) {
                ExitStart::NoHandles
            } else if pairs == 0 {
                ExitStart::NoPairs
            } else if shadow {
                ExitStart::Shadow
            } else {
                ExitStart::Armed
            },
        }),
{
    match maker_exit_shadow(args.modes.maker_exit, args.modes.maker_exit_shadow) {
        None => ExitStart::Off,
        Some(shadow) => if !(kalshi && pmus) {
            ExitStart::NoHandles
        } else if pairs == 0 {
            ExitStart::NoPairs
        } else if shadow {
            ExitStart::Shadow
        } else {
            ExitStart::Armed
        },
    }
}

/// How the pass that reconciles positions starts.
#[derive(Clone, Copy, Debug, PartialEq, Eq, Structural)]
pub enum ReconStart {
    Off,
    /// It was told to act and not to run, which does nothing.
    Ignored,
    NoHandles,
    NoPairs,
    /// It only detects.
    Detect,
    Shadow,
    Armed,
}

/// How the pass that reconciles positions starts, of whether it runs, of its two
/// flags, of the handles on the venues and of how many relationships have a leg on
/// both.
pub open spec fn recon_mode(
    runs: bool,
    act: bool,
    shadow: bool,
    kalshi: bool,
    pmus: bool,
    pairs: int,
) -> ReconStart {
    if !runs {
        if selects(act, shadow) is Some {
            ReconStart::Ignored
        } else {
            ReconStart::Off
        }
    } else if !(kalshi && pmus) {
        ReconStart::NoHandles
    } else if pairs == 0 {
        ReconStart::NoPairs
    } else {
        match selects(act, shadow) {
            None => ReconStart::Detect,
            Some(true) => ReconStart::Shadow,
            Some(false) => ReconStart::Armed,
        }
    }
}

/// How the pass that reconciles positions starts.
pub fn recon_start(args: &Args, kalshi: bool, pmus: bool, pairs: usize) -> (r: ReconStart)
    ensures
        r == recon_mode(
            args.modes.positions_recon,
            args.modes.positions_recon_act,
            args.modes.positions_recon_act_shadow,
            kalshi,
            pmus,
            pairs as int,
        ),
        r == (if !args.modes.positions_recon {
            if args.modes.positions_recon_act || args.modes.positions_recon_act_shadow {
                ReconStart::Ignored
            } else {
                ReconStart::Off
            }
        } else if !(kalshi && pmus) {
            ReconStart::NoHandles
        } else if pairs == 0 {
            ReconStart::NoPairs
        } else {
            match selects(args.modes.positions_recon_act, args.modes.positions_recon_act_shadow) {
                None => ReconStart::Detect,
                Some(true) => ReconStart::Shadow,
                Some(false) => ReconStart::Armed,
            }
        }),
{
    if !args.modes.positions_recon {
        if args.modes.positions_recon_act || args.modes.positions_recon_act_shadow {
            return ReconStart::Ignored;
        }
        return ReconStart::Off;
    }
    if !(kalshi && pmus) {
        return ReconStart::NoHandles;
    }
    if pairs == 0 {
        return ReconStart::NoPairs;
    }
    match recon_act_shadow(
        args.modes.positions_recon_act,
        args.modes.positions_recon_act_shadow,
    ) {
        None => ReconStart::Detect,
        Some(true) => ReconStart::Shadow,
        Some(false) => ReconStart::Armed,
    }
}

// ---------------------------------------------------------------- balances

/// The cash of both venues, or why the cycle is abandoned: both or nothing, as a
/// venue without a figure would count as one without cash.
pub open spec fn balances(
    kalshi: Result<Seq<char>, Seq<char>>,
    pmus: Result<Seq<char>, Seq<char>>,
) -> Result<Seq<(Seq<char>, Seq<char>)>, Seq<char>> {
    match (kalshi, pmus) {
        (Err(e), _) => Err(Venue::Kalshi.name() + ": "@ + e),
        (_, Err(e)) => Err(Venue::PolymarketUs.name() + ": "@ + e),
        (Ok(k), Ok(p)) => Ok(seq![(Venue::Kalshi.name(), k), (Venue::PolymarketUs.name(), p)]),
    }
}

pub open spec fn read_of(r: Result<String, String>) -> Result<Seq<char>, Seq<char>> {
    match r {
        Ok(t) => Ok(t@),
        Err(e) => Err(e@),
    }
}

/// The cash of both venues, each under the name that the balance check knows it by.
pub fn balance_cycle(kalshi: Result<String, String>, pmus: Result<String, String>) -> (r: Result<
    Vec<(String, String)>,
    String,
>)
    ensures
        match balances(read_of(kalshi), read_of(pmus)) {
            Ok(list) => r matches Ok(v) && pairs_of(v@) == list,
            Err(e) => r matches Err(t) && t@ == e,
        },
{
    match (kalshi, pmus) {
        (Err(e), _) => {
            let mut s: String = Venue::Kalshi.as_str().to_owned();
            s.append(": ");
            s.append(e.as_str());
            Err(s)
        },
        (_, Err(e)) => {
            let mut s: String = Venue::PolymarketUs.as_str().to_owned();
            s.append(": ");
            s.append(e.as_str());
            Err(s)
        },
        (Ok(k), Ok(p)) => {
            let mut v: Vec<(String, String)> = Vec::new();
            v.push((Venue::Kalshi.as_str().to_owned(), k));
            v.push((Venue::PolymarketUs.as_str().to_owned(), p));
            assert(pairs_of(v@) =~= seq![(Venue::Kalshi.name(), k@), (Venue::PolymarketUs.name(), p@)]);
            Ok(v)
        },
    }
}

/// Whether a reading differs from the last one that was shown.
pub fn moved(last: &Option<Vec<(String, String)>>, now: &Vec<(String, String)>) -> (r: bool)
    ensures
        r == (match *last {
            None => true,
            Some(l) => pairs_of(l@) != pairs_of(now@),
        }),
{
    let l: &Vec<(String, String)> = match last {
        None => {
            return true;
        },
        Some(l) => l,
    };
    let ghost (a, b) = (pairs_of(l@), pairs_of(now@));
    if l.len() != now.len() {
        assert(a.len() != b.len());
        return true;
    }
    let mut i: usize = 0;
    while i < l.len()
        invariant
            i <= l.len(),
            l.len() == now.len(),
            *last == Some(*l),
            a == pairs_of(l@),
            b == pairs_of(now@),
            forall|k: int| 0 <= k < i ==> #[trigger] a[k] == b[k],
        decreases l.len() - i,
    {
        if !same(l[i].0.as_str(), now[i].0.as_str()) || !same(l[i].1.as_str(), now[i].1.as_str()) {
            assert(a[i as int] != b[i as int]);
            return true;
        }
        i = i + 1;
    }
    assert(a =~= b);
    false
}

/// The first `n` figures as they are shown.
pub open spec fn figures(pairs: Seq<(Seq<char>, Seq<char>)>, n: nat) -> Seq<char>
    decreases n,
{
    if n == 0 {
        "[balance] live "@
    } else {
        figures(pairs, (n - 1) as nat) + (if n > 1 {
            " "@
        } else {
            ""@
        }) + pairs[n - 1].0 + "=$"@ + pairs[n - 1].1
    }
}

/// The figures as they are shown.
pub fn balance_line(pairs: &Vec<(String, String)>) -> (r: String)
    ensures
        r@ == figures(pairs_of(pairs@), pairs@.len()),
{
    let mut s: String = "[balance] live ".to_owned();
    let mut i: usize = 0;
    while i < pairs.len()
        invariant
            i <= pairs.len(),
            s@ == figures(pairs_of(pairs@), i as nat),
        decreases pairs.len() - i,
    {
        s.append(
            if i > 0 {
                " "
            } else {
                ""
            },
        );
        s.append(pairs[i].0.as_str());
        s.append("=$");
        s.append(pairs[i].1.as_str());
        i = i + 1;
    }
    s
}

// --------------------------------------------------------------------- laws

/// Where both flags are given, the one that spends no money wins; where neither
/// is, nothing runs.
pub proof fn law_shadow_wins(act: bool)
    ensures
        selects(act, true) == Some(true),
        selects(false, false) is None,
        selects(act, false) != Some(true),
{
}

/// A run on a tape may never touch a venue, whatever its credentials.
pub proof fn law_a_tape_never_touches_a_venue(
    kalshi: Option<Seq<char>>,
    pmus: Option<Seq<char>>,
)
    ensures
        cancel_missing(true, kalshi, pmus).len() > 0,
{
}

/// Cancelling is never held to what placing needs: with credentials and off a
/// tape nothing stands in its way.
pub proof fn law_cancelling_needs_credentials_alone()
    ensures
        cancel_missing(false, None, None).len() == 0,
{
}

/// The word in the banner never understates a run that may place.
pub proof fn law_the_banner_names_an_armed_run(enable_orders: bool, confirm_live: bool)
    ensures
        mode_text(false, enable_orders, confirm_live) == "ARMED"@ <==> enable_orders
            && confirm_live,
        mode_text(true, enable_orders, confirm_live) == "bench"@,
{
    reveal_strlit("ARMED");
    reveal_strlit("dry-run");
    assert("ARMED"@.len() == 5);
    assert("dry-run"@.len() == 7);
}

/// A venue that did not answer never counts as one without cash: the cycle is
/// abandoned.
pub proof fn law_no_answer_is_no_figure(
    kalshi: Result<Seq<char>, Seq<char>>,
    pmus: Result<Seq<char>, Seq<char>>,
)
    ensures
        balances(kalshi, pmus) is Ok <==> kalshi is Ok && pmus is Ok,
        balances(kalshi, pmus) matches Ok(v) ==> v.len() == 2,
{
}

} // verus!
