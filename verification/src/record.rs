//! What an exit leaves behind: its ledger record, and the lines that say what
//! was decided, what was closed, and what was left naked.
use crate::board::{seconds, seconds_text};
use crate::gauges::Gauges;
use crate::order::{by_venue, fills_by_venue, Order};
use crate::text::{number, numeral, signed_number, signed_numeral};
use crate::venue::{Role, Shape, Venue};
use vstd::prelude::*;
use vstd::string::StringExecFns;

verus! {

/// One leg of a closing record. Every leg is sold: the YES at Kalshi, and the
/// NO at PM-US.
#[derive(Debug)]
pub struct RecordLeg {
    pub venue: Venue,
    pub market_id: String,
    /// Which contract is sold.
    pub side: &'static str,
    pub action: &'static str,
    pub role: Role,
    pub qty: i64,
    pub yes_price: String,
}

/// The ledger record of an exit that filled and closed: a partial unwind of the
/// one lot that it was priced against.
#[derive(Debug)]
pub struct CloseRecord {
    /// The bits of the record's own timestamp, in seconds.
    pub ts: u64,
    pub relationship_id: String,
    pub title: String,
    pub strategy: &'static str,
    pub status: &'static str,
    /// The bits of the timestamp of the one record that this closes.
    pub closes_ts: u64,
    pub qty: i64,
    pub source: String,
    /// No fee is settled by this record.
    pub fees_pending: bool,
    pub maker_exit_k_basis: String,
    pub maker_exit_pm_basis: String,
    pub maker_exit_shape: &'static str,
    pub maker_exit_lock_ct: String,
    pub note: String,
    pub legs: Vec<RecordLeg>,
}

/// The note of a record.
pub open spec fn note_text(o: Order) -> Seq<char> {
    match o.cross {
        Some(c) => "opportunistic maker exit ("@
                + o.shape.tag_text()
                + "): BOTH legs were CROSSED — an IOC on "@
                + o.shape.rests_at().name()
                + " at "@
                + c.limit@
                + " rather than a post-only order rested there — because crossing still locked "@
                + c.lock_ct@
                + "/ct against BOTH legs' ledger basis, net of both takers' fees, where resting would have locked "@
                + o.lock_ct@
                + "/ct and waited. The difference is the spread and the taker fees, and it is what was paid to convert now instead of joining a queue. Sized to ONE open lot, so this closes exactly one record. The leg prices are the venues' OWN fills, not the limits sent — an IOC fills at the touch when the touch is better, and the difference is real money. realized_pnl_usd is still absent: PM-US fees are not on anything this process reads, and half-settled fees would read as fully settled downstream."@,
        None => "opportunistic maker exit ("@
                + o.shape.tag_text()
                + "): a post-only order rested on "@
                + o.shape.rests_at().name()
                + " at the price that locked a profit against BOTH legs' ledger basis, and the other leg was closed with an IOC re-priced against the book at fill time. Sized to ONE open lot, so this closes exactly one record. The leg prices are the venues' OWN fills, not the limits sent — an IOC fills at the touch when the touch is better, and the difference is real money. realized_pnl_usd is still absent: PM-US fees are not on anything this process reads, and half-settled fees would read as fully settled downstream."@,
    }
}

fn note(o: &Order) -> (r: String)
    ensures
        r@ == note_text(*o),
{
    match &o.cross {
        Some(c) => {
                let mut s: String = "opportunistic maker exit (".to_owned();
                s.append(o.shape.tag());
                s.append("): BOTH legs were CROSSED — an IOC on ");
                s.append(o.shape.rest_venue().as_str());
                s.append(" at ");
                s.append(c.limit.as_str());
                s.append(" rather than a post-only order rested there — because crossing still locked ");
                s.append(c.lock_ct.as_str());
                s.append("/ct against BOTH legs' ledger basis, net of both takers' fees, where resting would have locked ");
                s.append(o.lock_ct.as_str());
                s.append("/ct and waited. The difference is the spread and the taker fees, and it is what was paid to convert now instead of joining a queue. Sized to ONE open lot, so this closes exactly one record. The leg prices are the venues' OWN fills, not the limits sent — an IOC fills at the touch when the touch is better, and the difference is real money. realized_pnl_usd is still absent: PM-US fees are not on anything this process reads, and half-settled fees would read as fully settled downstream.");
                s
            },
        None => {
                let mut s: String = "opportunistic maker exit (".to_owned();
                s.append(o.shape.tag());
                s.append("): a post-only order rested on ");
                s.append(o.shape.rest_venue().as_str());
                s.append(" at the price that locked a profit against BOTH legs' ledger basis, and the other leg was closed with an IOC re-priced against the book at fill time. Sized to ONE open lot, so this closes exactly one record. The leg prices are the venues' OWN fills, not the limits sent — an IOC fills at the touch when the touch is better, and the difference is real money. realized_pnl_usd is still absent: PM-US fees are not on anything this process reads, and half-settled fees would read as fully settled downstream.");
                s
            },
    }
}

/// Whether a record is that of `filled` contracts of an exit, with the fills of
/// its two legs held by role.
pub open spec fn records(
    r: CloseRecord,
    o: Order,
    rest_fill: Seq<char>,
    close_fill: Seq<char>,
    filled: i64,
    ts: u64,
    source: Seq<char>,
) -> bool {
    &&& r.ts == ts
    &&& r.relationship_id@ == o.rel_id@
    &&& r.title@ == o.rel_id@ + " (rust maker-exit)"@
    &&& r.strategy@ == "maker-exit"@
    &&& r.status@ == "unwound"@
    &&& r.closes_ts == o.closes_ts
    &&& r.qty == filled
    &&& r.source@ == source
    &&& r.fees_pending
    &&& r.maker_exit_k_basis@ == o.k_basis@
    &&& r.maker_exit_pm_basis@ == o.pm_basis@
    &&& r.maker_exit_shape@ == o.shape.tag_text()
    &&& r.maker_exit_lock_ct@ == o.lock_taken()@
    &&& r.note@ == note_text(o)
    &&& r.legs@.len() == 2
    &&& r.legs@[0].venue == Venue::Kalshi
    &&& r.legs@[0].market_id@ == o.market@
    &&& r.legs@[0].side@ == "yes"@
    &&& r.legs@[0].action@ == "sell"@
    &&& r.legs@[0].role == o.roles_paid().0
    &&& r.legs@[0].qty == filled
    &&& r.legs@[0].yes_price@ == by_venue(o.shape, rest_fill, close_fill).0
    &&& r.legs@[1].venue == Venue::PolymarketUs
    &&& r.legs@[1].market_id@ == o.pm_market@
    &&& r.legs@[1].side@ == "no"@
    &&& r.legs@[1].action@ == "sell"@
    &&& r.legs@[1].role == o.roles_paid().1
    &&& r.legs@[1].qty == filled
    &&& r.legs@[1].yes_price@ == by_venue(o.shape, rest_fill, close_fill).1
}

/// The ledger record of an exit: each price goes to the venue that paid it, and
/// the roles are those that were paid.
pub fn close_record(
    o: &Order,
    rest_fill: &str,
    close_fill: &str,
    filled: i64,
    ts: u64,
    source: &str,
) -> (r: CloseRecord)
    ensures
        records(r, *o, rest_fill@, close_fill@, filled, ts, source@),
{
    let (k_fill, pm_fill): (&str, &str) = fills_by_venue(o, rest_fill, close_fill);
    let (k_role, pm_role): (Role, Role) = if o.cross.is_some() {
        (Role::Taker, Role::Taker)
    } else {
        o.shape.roles()
    };
    let mut title: String = o.rel_id.clone();
    title.append(" (rust maker-exit)");
    let lock: String = match &o.cross {
        Some(c) => c.lock_ct.clone(),
        None => o.lock_ct.clone(),
    };
    let mut legs: Vec<RecordLeg> = Vec::new();
    legs.push(
        RecordLeg {
            venue: Venue::Kalshi,
            market_id: o.market.clone(),
            side: "yes",
            action: "sell",
            role: k_role,
            qty: filled,
            yes_price: k_fill.to_owned(),
        },
    );
    legs.push(
        RecordLeg {
            venue: Venue::PolymarketUs,
            market_id: o.pm_market.clone(),
            side: "no",
            action: "sell",
            role: pm_role,
            qty: filled,
            yes_price: pm_fill.to_owned(),
        },
    );
    CloseRecord {
        ts,
        relationship_id: o.rel_id.clone(),
        title,
        strategy: "maker-exit",
        status: "unwound",
        closes_ts: o.closes_ts,
        qty: filled,
        source: source.to_owned(),
        fees_pending: true,
        maker_exit_k_basis: o.k_basis.clone(),
        maker_exit_pm_basis: o.pm_basis.clone(),
        maker_exit_shape: o.shape.tag(),
        maker_exit_lock_ct: lock,
        note: note(o),
        legs,
    }
}

// ------------------------------------------------------------ what is decided

pub open spec fn shadow_text(shadow: bool) -> Seq<char> {
    if shadow {
        " SHADOW —"@
    } else {
        ""@
    }
}

fn shadow_str(shadow: bool) -> (r: &'static str)
    ensures
        r@ == shadow_text(shadow),
{
    if shadow {
        " SHADOW —"
    } else {
        ""
    }
}

pub open spec fn verb(shape: Shape) -> Seq<char> {
    match shape {
        Shape::RestKalshi => "REST ASK"@,
        Shape::RestPmUs => "REST BID"@,
    }
}

fn verb_str(shape: Shape) -> (r: &'static str)
    ensures
        r@ == verb(shape),
{
    match shape {
        Shape::RestKalshi => "REST ASK",
        Shape::RestPmUs => "REST BID",
    }
}

pub open spec fn against(shape: Shape) -> Seq<char> {
    match shape {
        Shape::RestKalshi => "pm ask"@,
        Shape::RestPmUs => "kalshi bid"@,
    }
}

fn against_str(shape: Shape) -> (r: &'static str)
    ensures
        r@ == against(shape),
{
    match shape {
        Shape::RestKalshi => "pm ask",
        Shape::RestPmUs => "kalshi bid",
    }
}

pub open spec fn versus(runner_up: Option<String>) -> Seq<char> {
    match runner_up {
        Some(r) => ", beating the other shape's "@ + r@ + "/ct"@,
        None => " (the other shape could not be priced)"@,
    }
}

fn versus_text(runner_up: &Option<String>) -> (r: String)
    ensures
        r@ == versus(*runner_up),
{
    match runner_up {
        Some(t) => {
            let mut s: String = ", beating the other shape's ".to_owned();
            s.append(t.as_str());
            s.append("/ct");
            s
        },
        None => " (the other shape could not be priced)".to_owned(),
    }
}

/// The line that says what was decided; `opened` is the timestamp of the lot in
/// words.
pub open spec fn described(o: Order, shadow: bool, held_ns: u64, opened: &str) -> Seq<char> {
    "[maker-exit]"@
        + shadow_text(shadow)
        + " "@
        + verb(o.shape)
        + " "@
        + signed_numeral(o.qty as int)
        + "x "@
        + o.rests_on()@
        + " @ "@
        + o.limit@
        + " on "@
        + o.shape.rests_at().name()
        + " ["@
        + o.shape.tag_text()
        + "] (closes the lot opened at ts "@
        + opened@
        + ", kalshi basis "@
        + o.k_basis@
        + "/ct + pm basis "@
        + o.pm_basis@
        + "/ct, "@
        + against(o.shape)
        + " "@
        + o.pm_ask_at_decision@
        + " at decision, locks "@
        + o.lock_ct@
        + "/ct"@
        + versus(o.runner_up_ct)
        + "; held "@
        + numeral(seconds(held_ns as int))
        + "s) — id "@
        + o.rel_id@
}

/// One line that describes what was decided.
pub fn describe(o: &Order, shadow: bool, held_ns: u64, opened: &str) -> (r: String)
    ensures
        r@ == described(*o, shadow, held_ns, opened),
{
    let mut s: String = "[maker-exit]".to_owned();
    s.append(shadow_str(shadow));
    s.append(" ");
    s.append(verb_str(o.shape));
    s.append(" ");
    s.append(signed_number(o.qty).as_str());
    s.append("x ");
    s.append(o.rest_market());
    s.append(" @ ");
    s.append(o.limit.as_str());
    s.append(" on ");
    s.append(o.shape.rest_venue().as_str());
    s.append(" [");
    s.append(o.shape.tag());
    s.append("] (closes the lot opened at ts ");
    s.append(opened);
    s.append(", kalshi basis ");
    s.append(o.k_basis.as_str());
    s.append("/ct + pm basis ");
    s.append(o.pm_basis.as_str());
    s.append("/ct, ");
    s.append(against_str(o.shape));
    s.append(" ");
    s.append(o.pm_ask_at_decision.as_str());
    s.append(" at decision, locks ");
    s.append(o.lock_ct.as_str());
    s.append("/ct");
    s.append(versus_text(&o.runner_up_ct).as_str());
    s.append("; held ");
    s.append(seconds_text(held_ns).as_str());
    s.append("s) — id ");
    s.append(o.rel_id.as_str());
    s
}

// --------------------------------------------------------------- what is left

/// The alarm of a leg left naked; `count` is how many there have been.
pub open spec fn alarm_text(o: Order, filled: i64, why: Seq<char>, opened: Seq<char>, count: u64) -> Seq<
    char,
> {
    match o.shape {
        Shape::RestKalshi => "[maker-exit] ### NAKED AFTER EXIT ### "@
                + signed_numeral(filled as int)
                + "x "@
                + o.market@
                + " SOLD on Kalshi and the PM-US close on "@
                + o.pm_market@
                + " did NOT complete ("@
                + why
                + "). We are short "@
                + signed_numeral(filled as int)
                + " PM-US YES with nothing against it, and the ledger still says the basket opened at ts "@
                + opened
                + " is OPEN — so no exposure fold, no cap and no unwind can see this. `heal` HAS IT: from the next 60s cycle it re-reads that venue's truth, sizes the retry to the shortfall and re-prices, profitable-only for 10 cycles and then crossing out regardless. NO HAND NEEDED unless it is still saying this in ~15 minutes. (Do NOT also let --positions-recon-act complete it by BUYING KALSHI BACK — that re-opens what this just exited; it is profitable-only and has acted 0 times to date, so in practice it will not.) maker_exit_unresolved is now "@
                + numeral(count as nat)
                + "."@,
        Shape::RestPmUs => "[maker-exit] ### NAKED AFTER EXIT ### "@
                + signed_numeral(filled as int)
                + "x "@
                + o.pm_market@
                + " BOUGHT BACK on PM-US and the Kalshi sell on "@
                + o.market@
                + " did NOT complete ("@
                + why
                + "). We are long "@
                + signed_numeral(filled as int)
                + " Kalshi YES with nothing against it, and the ledger still says the basket opened at ts "@
                + opened
                + " is OPEN — so no exposure fold, no cap and no unwind can see this. `heal` HAS IT: from the next 60s cycle it re-reads that venue's truth, sizes the retry to the shortfall and re-prices, profitable-only for 10 cycles and then crossing out regardless. NO HAND NEEDED unless it is still saying this in ~15 minutes. (Do NOT also let --positions-recon-act complete it by SELLING PM-US SHORT again — that re-opens the leg this just closed; it is profitable-only and has acted 0 times to date, so in practice it will not.) maker_exit_unresolved is now "@
                + numeral(count as nat)
                + "."@,
    }
}

/// Counts a leg left naked, and says which position that is: a PM-US short
/// where the Kalshi leg rested, a Kalshi long where the PM-US leg did.
pub fn alarm_unresolved(gauges: &mut Gauges, o: &Order, filled: i64, why: &str, opened: &str) -> (r:
    String)
    ensures
        *final(gauges) == old(gauges).plus_unresolved(),
        r@ == alarm_text(*o, filled, why@, opened@, old(gauges).plus_unresolved().unresolved),
{
    gauges.note_unresolved();
    let count: u64 = gauges.unresolved;
    match o.shape {
        Shape::RestKalshi => {
                let mut s: String = "[maker-exit] ### NAKED AFTER EXIT ### ".to_owned();
                s.append(signed_number(filled).as_str());
                s.append("x ");
                s.append(o.market.as_str());
                s.append(" SOLD on Kalshi and the PM-US close on ");
                s.append(o.pm_market.as_str());
                s.append(" did NOT complete (");
                s.append(why);
                s.append("). We are short ");
                s.append(signed_number(filled).as_str());
                s.append(" PM-US YES with nothing against it, and the ledger still says the basket opened at ts ");
                s.append(opened);
                s.append(" is OPEN — so no exposure fold, no cap and no unwind can see this. `heal` HAS IT: from the next 60s cycle it re-reads that venue's truth, sizes the retry to the shortfall and re-prices, profitable-only for 10 cycles and then crossing out regardless. NO HAND NEEDED unless it is still saying this in ~15 minutes. (Do NOT also let --positions-recon-act complete it by BUYING KALSHI BACK — that re-opens what this just exited; it is profitable-only and has acted 0 times to date, so in practice it will not.) maker_exit_unresolved is now ");
                s.append(number(count as u64).as_str());
                s.append(".");
                s
            },
        Shape::RestPmUs => {
                let mut s: String = "[maker-exit] ### NAKED AFTER EXIT ### ".to_owned();
                s.append(signed_number(filled).as_str());
                s.append("x ");
                s.append(o.pm_market.as_str());
                s.append(" BOUGHT BACK on PM-US and the Kalshi sell on ");
                s.append(o.market.as_str());
                s.append(" did NOT complete (");
                s.append(why);
                s.append("). We are long ");
                s.append(signed_number(filled).as_str());
                s.append(" Kalshi YES with nothing against it, and the ledger still says the basket opened at ts ");
                s.append(opened);
                s.append(" is OPEN — so no exposure fold, no cap and no unwind can see this. `heal` HAS IT: from the next 60s cycle it re-reads that venue's truth, sizes the retry to the shortfall and re-prices, profitable-only for 10 cycles and then crossing out regardless. NO HAND NEEDED unless it is still saying this in ~15 minutes. (Do NOT also let --positions-recon-act complete it by SELLING PM-US SHORT again — that re-opens the leg this just closed; it is profitable-only and has acted 0 times to date, so in practice it will not.) maker_exit_unresolved is now ");
                s.append(number(count as u64).as_str());
                s.append(".");
                s
            },
    }
}

// -------------------------------------------------------------- what is booked

/// What came of writing a record.
#[derive(Debug)]
pub enum Booking {
    Booked,
    /// A record with this relationship and timestamp was there already.
    AlreadyBooked,
    /// Another writer opened a basket on the same markets meanwhile.
    Contested { others: String },
    /// The ledger could not be written.
    Failed { why: String },
}

/// The gauges after a record was written, or could not be.
pub open spec fn after_booking(g: Gauges, b: Booking) -> Gauges {
    match b {
        Booking::Failed { .. } => g.plus_unresolved(),
        _ => g.plus_closed(),
    }
}

pub open spec fn booking_text(
    b: Booking,
    o: Order,
    k_fill: &str,
    pm_fill: &str,
    filled: i64,
    opened: &str,
    path: &str,
    count: u64,
) -> Seq<char> {
    match b {
        Booking::Booked => "[maker-exit] CLOSED "@
                + signed_numeral(filled as int)
                + "x "@
                + o.market@
                + " at "@
                + k_fill@
                + " / pm "@
                + pm_fill@
                + " — the lot opened at ts "@
                + opened@
                + " is unwound by "@
                + signed_numeral(filled as int),
        Booking::AlreadyBooked => "[maker-exit] CLOSED "@
                + signed_numeral(filled as int)
                + "x "@
                + o.market@
                + " but a record with this exact (relationship, ts) is ALREADY in "@
                + path@
                + " — not written twice. This should be unreachable; if it is not, two writers share a clock."@,
        Booking::Contested { others } => "[maker-exit] CONTESTED "@
                + o.rel_id@
                + " — another writer booked an OPEN basket on the same markets at ts "@
                + others@
                + " while this exit was closing one. BOTH are in the ledger. If arbbot-hedge.timer or --positions-recon-act is armed it may have re-opened what this just closed; reconcile "@
                + o.market@
                + " by hand."@,
        Booking::Failed { why } => "[maker-exit] LEDGER WRITE FAILED ("@
                + why@
                + ") — "@
                + signed_numeral(filled as int)
                + "x "@
                + o.market@
                + " IS CLOSED AT BOTH VENUES AND IS NOT BOOKED. Every exposure fold still believes this basket is open, so the caps are reserved against a position that no longer exists. FIX BY HAND. maker_exit_unresolved is now "@
                + numeral(count as nat)
                + "."@,
    }
}

/// Counts what came of booking a closed exit, and says so. A record that could
/// not be written leaves a closed basket on the books as open.
pub fn book(
    gauges: &mut Gauges,
    b: &Booking,
    path: &str,
    o: &Order,
    rest_fill: &str,
    close_fill: &str,
    filled: i64,
    opened: &str,
) -> (r: String)
    ensures
        *final(gauges) == after_booking(*old(gauges), *b),
        r@ == booking_text(
            *b,
            *o,
            by_venue(o.shape, rest_fill, close_fill).0,
            by_venue(o.shape, rest_fill, close_fill).1,
            filled,
            opened,
            path,
            after_booking(*old(gauges), *b).unresolved,
        ),
{
    let (k_fill, pm_fill): (&str, &str) = fills_by_venue(o, rest_fill, close_fill);
    match b {
        Booking::Failed { .. } => {
            gauges.note_unresolved();
        },
        _ => {
            gauges.note_closed();
        },
    }
    let count: u64 = gauges.unresolved;
    match b {
        Booking::Booked => {
                let mut s: String = "[maker-exit] CLOSED ".to_owned();
                s.append(signed_number(filled).as_str());
                s.append("x ");
                s.append(o.market.as_str());
                s.append(" at ");
                s.append(k_fill);
                s.append(" / pm ");
                s.append(pm_fill);
                s.append(" — the lot opened at ts ");
                s.append(opened);
                s.append(" is unwound by ");
                s.append(signed_number(filled).as_str());
                s
            },
        Booking::AlreadyBooked => {
                let mut s: String = "[maker-exit] CLOSED ".to_owned();
                s.append(signed_number(filled).as_str());
                s.append("x ");
                s.append(o.market.as_str());
                s.append(" but a record with this exact (relationship, ts) is ALREADY in ");
                s.append(path);
                s.append(" — not written twice. This should be unreachable; if it is not, two writers share a clock.");
                s
            },
        Booking::Contested { others } => {
                let mut s: String = "[maker-exit] CONTESTED ".to_owned();
                s.append(o.rel_id.as_str());
                s.append(" — another writer booked an OPEN basket on the same markets at ts ");
                s.append(others.as_str());
                s.append(" while this exit was closing one. BOTH are in the ledger. If arbbot-hedge.timer or --positions-recon-act is armed it may have re-opened what this just closed; reconcile ");
                s.append(o.market.as_str());
                s.append(" by hand.");
                s
            },
        Booking::Failed { why } => {
                let mut s: String = "[maker-exit] LEDGER WRITE FAILED (".to_owned();
                s.append(why.as_str());
                s.append(") — ");
                s.append(signed_number(filled).as_str());
                s.append("x ");
                s.append(o.market.as_str());
                s.append(" IS CLOSED AT BOTH VENUES AND IS NOT BOOKED. Every exposure fold still believes this basket is open, so the caps are reserved against a position that no longer exists. FIX BY HAND. maker_exit_unresolved is now ");
                s.append(number(count as u64).as_str());
                s.append(".");
                s
            },
    }
}

} // verus!
