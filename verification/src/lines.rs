//! The lines that the exit pass shows its operator.
use crate::board::{seconds, seconds_text};
use crate::closing::on_wire;
use crate::money::{plain, plain_text, px4, far_ok, Px};
use crate::order::Order;
use crate::text::{number, numeral, signed_number, signed_numeral};
use crate::venue::Shape;
use vstd::prelude::*;
use vstd::string::StringExecFns;

verus! {

// ---------------------------------------------------------------- placing

pub open spec fn rested_text(o: Order, id: Seq<char>, client: Seq<char>) -> Seq<char> {
    "[maker-exit] RESTED "@
        + signed_numeral(o.qty as int)
        + "x "@
        + o.rests_on()@
        + " @ "@
        + o.limit@
        + " ["@
        + o.shape.tag_text()
        + "] locking "@
        + o.lock_ct@
        + "/ct — venue id "@
        + id
        + ", client "@
        + client
}

/// An exit rests.
pub fn rested(o: &Order, id: &str, client: &str) -> (r: String)
    ensures
        r@ == rested_text(*o, id@, client@),
{
    let mut s: String = "[maker-exit] RESTED ".to_owned();
    s.append(signed_number(o.qty).as_str());
    s.append("x ");
    s.append(o.rest_market());
    s.append(" @ ");
    s.append(o.limit.as_str());
    s.append(" [");
    s.append(o.shape.tag());
    s.append("] locking ");
    s.append(o.lock_ct.as_str());
    s.append("/ct — venue id ");
    s.append(id);
    s.append(", client ");
    s.append(client);
    s
}

pub open spec fn halted_text(o: Order, why: Seq<char>, secs: u64) -> Seq<char> {
    "[maker-exit] "@
        + o.rests_on()@
        + " is HALTED at the venue ("@
        + why
        + ") — parking "@
        + o.market@
        + " for "@
        + numeral(secs as nat)
        + "s. No price, size or interval answers a halt; only the venue reopening does."@
}

/// The market of an exit is halted; its candidate is left alone for `secs`.
pub fn halted(o: &Order, why: &str, secs: u64) -> (r: String)
    ensures
        r@ == halted_text(*o, why@, secs),
{
    let mut s: String = "[maker-exit] ".to_owned();
    s.append(o.rest_market());
    s.append(" is HALTED at the venue (");
    s.append(why);
    s.append(") — parking ");
    s.append(o.market.as_str());
    s.append(" for ");
    s.append(number(secs).as_str());
    s.append("s. No price, size or interval answers a halt; only the venue reopening does.");
    s
}

pub open spec fn place_refused_text(o: Order, why: Seq<char>) -> Seq<char> {
    "[maker-exit] PLACE REFUSED on "@
        + o.market@
        + " ("@
        + why
        + ") — if this is a post-only rejection the book has come to our price, which is the one outcome that costs nothing"@
}

/// The venue refused to rest an exit.
pub fn place_refused(o: &Order, why: &str) -> (r: String)
    ensures
        r@ == place_refused_text(*o, why@),
{
    let mut s: String = "[maker-exit] PLACE REFUSED on ".to_owned();
    s.append(o.market.as_str());
    s.append(" (");
    s.append(why);
    s.append(") — if this is a post-only rejection the book has come to our price, which is the one outcome that costs nothing");
    s
}

pub open spec fn place_lost_text(o: Order, why: Seq<char>, client: Seq<char>, count: u64) -> Seq<char> {
    "[maker-exit] PLACE DID NOT COMPLETE on "@
        + o.market@
        + " ("@
        + why
        + ") — an ASK may be RESTING at the venue under an id this process never learned, so nothing here can cancel it and a fill on it would leave a naked PM-US short. Nothing else in this process will take on that market again either. CHECK BY HAND: client_order_id "@
        + client
        + ". maker_exit_unresolved is now "@
        + numeral(count as nat)
        + "."@
}

/// Whether an exit rests is not known.
pub fn place_lost(o: &Order, why: &str, client: &str, count: u64) -> (r: String)
    ensures
        r@ == place_lost_text(*o, why@, client@, count),
{
    let mut s: String = "[maker-exit] PLACE DID NOT COMPLETE on ".to_owned();
    s.append(o.market.as_str());
    s.append(" (");
    s.append(why);
    s.append(") — an ASK may be RESTING at the venue under an id this process never learned, so nothing here can cancel it and a fill on it would leave a naked PM-US short. Nothing else in this process will take on that market again either. CHECK BY HAND: client_order_id ");
    s.append(client);
    s.append(". maker_exit_unresolved is now ");
    s.append(number(count).as_str());
    s.append(".");
    s
}

pub open spec fn place_task_failed_text(o: Order, why: Seq<char>, client: Seq<char>) -> Seq<char> {
    "[maker-exit] PLACE TASK FAILED on "@
        + o.market@
        + " ("@
        + why
        + ") — same as above: the ask may or may not be resting. CHECK BY HAND: client_order_id "@
        + client
}

/// Whether an exit was sent is not known.
pub fn place_task_failed(o: &Order, why: &str, client: &str) -> (r: String)
    ensures
        r@ == place_task_failed_text(*o, why@, client@),
{
    let mut s: String = "[maker-exit] PLACE TASK FAILED on ".to_owned();
    s.append(o.market.as_str());
    s.append(" (");
    s.append(why);
    s.append(") — same as above: the ask may or may not be resting. CHECK BY HAND: client_order_id ");
    s.append(client);
    s
}

// --------------------------------------------------------------- crossing

/// The line of a cross, of its limit and of what it locks.
pub open spec fn crossing_text(o: Order, client: Seq<char>) -> Seq<char> {
    match o.cross {
        Some(c) => "[maker-exit] CROSS "@
            + (match o.shape {
                Shape::RestKalshi => "SELL"@,
                Shape::RestPmUs => "BUY"@,
            })
            + " "@
            + signed_numeral(o.qty as int)
            + "x "@
            + o.rests_on()@
            + " @ "@
            + c.limit@
            + " ["@
            + o.shape.tag_text()
            + "] locking "@
            + c.lock_ct@
            + "/ct crossed (vs "@
            + o.lock_ct@
            + "/ct rested, which is the spread and both takers' fees) — id "@
            + client,
        None => ""@,
    }
}

/// A first leg is about to cross; empty where the exit rests.
pub fn crossing(o: &Order, client: &str) -> (r: String)
    ensures
        r@ == crossing_text(*o, client@),
{
    match &o.cross {
        Some(c) => {
            let mut s: String = "[maker-exit] CROSS ".to_owned();
            s.append(
                match o.shape {
                    Shape::RestKalshi => "SELL",
                    Shape::RestPmUs => "BUY",
                },
            );
            s.append(" ");
            s.append(signed_number(o.qty).as_str());
            s.append("x ");
            s.append(o.rest_market());
            s.append(" @ ");
            s.append(c.limit.as_str());
            s.append(" [");
            s.append(o.shape.tag());
            s.append("] locking ");
            s.append(c.lock_ct.as_str());
            s.append("/ct crossed (vs ");
            s.append(o.lock_ct.as_str());
            s.append("/ct rested, which is the spread and both takers' fees) — id ");
            s.append(client);
            s
        },
        None => "".to_owned(),
    }
}


pub open spec fn cross_refused_text(why: Seq<char>) -> Seq<char> {
    "[maker-exit] the cross was refused: "@
        + why
}

/// The venue refused a cross.
pub fn cross_refused(why: &str) -> (r: String)
    ensures
        r@ == cross_refused_text(why@),
{
    let mut s: String = "[maker-exit] the cross was refused: ".to_owned();
    s.append(why);
    s
}

pub open spec fn cross_task_failed_text(why: Seq<char>) -> Seq<char> {
    "[maker-exit] cross task failed: "@
        + why
}

/// A cross was perhaps not sent.
pub fn cross_task_failed(why: &str) -> (r: String)
    ensures
        r@ == cross_task_failed_text(why@),
{
    let mut s: String = "[maker-exit] cross task failed: ".to_owned();
    s.append(why);
    s
}

pub open spec fn cross_unread_text(id: Seq<char>, client: Seq<char>, why: Seq<char>) -> Seq<char> {
    "[maker-exit] the cross IOC "@
        + id
        + " (client "@
        + client
        + ") was ACCEPTED and its fill could not be read: "@
        + why
        + " — NOT closing the other leg, because closing against a fill we cannot see is how one naked leg becomes two. `--positions-recon` reads venue truth every cycle and will surface it."@
}

/// The fill of a cross cannot be read.
pub fn cross_unread(id: &str, client: &str, why: &str) -> (r: String)
    ensures
        r@ == cross_unread_text(id@, client@, why@),
{
    let mut s: String = "[maker-exit] the cross IOC ".to_owned();
    s.append(id);
    s.append(" (client ");
    s.append(client);
    s.append(") was ACCEPTED and its fill could not be read: ");
    s.append(why);
    s.append(" — NOT closing the other leg, because closing against a fill we cannot see is how one naked leg becomes two. `--positions-recon` reads venue truth every cycle and will surface it.");
    s
}

pub open spec fn cross_unfilled_text() -> Seq<char> {
    "[maker-exit] the cross IOC did not fill — the book moved between the decision and the wire. Nothing rests and the slot is free; the candidate comes back round on the next scan."@
}

/// A cross did not fill.
pub fn cross_unfilled() -> (r: String)
    ensures
        r@ == cross_unfilled_text(),
{
    "[maker-exit] the cross IOC did not fill — the book moved between the decision and the wire. Nothing rests and the slot is free; the candidate comes back round on the next scan.".to_owned()
}

pub open spec fn cross_partial_text(o: Order, filled: i64) -> Seq<char> {
    "[maker-exit] the cross filled "@
        + signed_numeral(filled as int)
        + " of "@
        + signed_numeral(o.qty as int)
        + " — the close below is sized to the FILL, not the order, so the unfilled remainder was never opened and needs nothing."@
}

/// A cross filled partly.
pub fn cross_partial(o: &Order, filled: i64) -> (r: String)
    ensures
        r@ == cross_partial_text(*o, filled),
{
    let mut s: String = "[maker-exit] the cross filled ".to_owned();
    s.append(signed_number(filled).as_str());
    s.append(" of ");
    s.append(signed_number(o.qty).as_str());
    s.append(" — the close below is sized to the FILL, not the order, so the unfilled remainder was never opened and needs nothing.");
    s
}

// ----------------------------------------------------- the vanished order

pub open spec fn vanished_no_ledger_text(o: Order, why: Seq<char>) -> Seq<char> {
    "[maker-exit] "@
        + o.rests_on()@
        + " has vanished from the venue (404) but the ledger is unreadable ("@
        + why
        + "), so what we SHOULD hold there cannot be established — holding the slot rather than assuming it never filled"@
}

/// An order vanished, and the ledger cannot be read.
pub fn vanished_no_ledger(o: &Order, why: &str) -> (r: String)
    ensures
        r@ == vanished_no_ledger_text(*o, why@),
{
    let mut s: String = "[maker-exit] ".to_owned();
    s.append(o.rest_market());
    s.append(" has vanished from the venue (404) but the ledger is unreadable (");
    s.append(why);
    s.append("), so what we SHOULD hold there cannot be established — holding the slot rather than assuming it never filled");
    s
}

pub open spec fn vanished_no_positions_text(o: Order, why: Seq<char>) -> Seq<char> {
    "[maker-exit] "@
        + o.rests_on()@
        + " has vanished from the venue (404) and the positions read that would say whether it sold first also failed ("@
        + why
        + ") — holding the slot. This is the one case that still stalls the recycler, and it stalls it SAFELY: no fill is being assumed away."@
}

/// An order vanished, and the positions cannot be read.
pub fn vanished_no_positions(o: &Order, why: &str) -> (r: String)
    ensures
        r@ == vanished_no_positions_text(*o, why@),
{
    let mut s: String = "[maker-exit] ".to_owned();
    s.append(o.rest_market());
    s.append(" has vanished from the venue (404) and the positions read that would say whether it sold first also failed (");
    s.append(why);
    s.append(") — holding the slot. This is the one case that still stalls the recycler, and it stalls it SAFELY: no fill is being assumed away.");
    s
}

pub open spec fn vanished_degraded_text(o: Order, expected: i64) -> Seq<char> {
    "[maker-exit] "@
        + o.rests_on()@
        + " has vanished from the venue (404) and the ledger has "@
        + signed_numeral(expected as int)
        + " open there, but the PM-US positions map has NO ROW for it — a DEGRADED read (partial set, see pmus-positions-partial-stale-sticky), not a sale. Holding the slot; recon owns any real discrepancy."@
}

/// An order vanished, and the positions lack its row.
pub fn vanished_degraded(o: &Order, expected: i64) -> (r: String)
    ensures
        r@ == vanished_degraded_text(*o, expected),
{
    let mut s: String = "[maker-exit] ".to_owned();
    s.append(o.rest_market());
    s.append(" has vanished from the venue (404) and the ledger has ");
    s.append(signed_number(expected).as_str());
    s.append(" open there, but the PM-US positions map has NO ROW for it — a DEGRADED read (partial set, see pmus-positions-partial-stale-sticky), not a sale. Holding the slot; recon owns any real discrepancy.");
    s
}

pub open spec fn vanished_unsold_text(o: Order, id: Seq<char>, age: u64, held: i64, expected: i64) -> Seq<char> {
    "[maker-exit] "@
        + o.rests_on()@
        + " has vanished from the venue (404 on "@
        + id
        + ", after "@
        + numeral(seconds(age as int))
        + "s resting) and venue truth says it sold nothing — we hold "@
        + plain(held as int)
        + " there and the ledger's open lots account for "@
        + signed_numeral(expected as int)
        + ". Forgetting the order and freeing the slot; the candidate is re-decided from a fresh book next cycle."@
}

/// An order vanished without trading.
pub fn vanished_unsold(o: &Order, id: &str, age: u64, held: i64, expected: i64) -> (r: String)
    ensures
        r@ == vanished_unsold_text(*o, id@, age, held, expected),
{
    let mut s: String = "[maker-exit] ".to_owned();
    s.append(o.rest_market());
    s.append(" has vanished from the venue (404 on ");
    s.append(id);
    s.append(", after ");
    s.append(seconds_text(age).as_str());
    s.append("s resting) and venue truth says it sold nothing — we hold ");
    s.append(plain_text(held).as_str());
    s.append(" there and the ledger's open lots account for ");
    s.append(signed_number(expected).as_str());
    s.append(". Forgetting the order and freeing the slot; the candidate is re-decided from a fresh book next cycle.");
    s
}

pub open spec fn vanished_too_much_text(o: Order, held: i64, expected: i64, gone: i64) -> Seq<char> {
    "[maker-exit] "@
        + o.rests_on()@
        + " has vanished from the venue (404) and venue truth says we hold "@
        + plain(held as int)
        + " there against "@
        + signed_numeral(expected as int)
        + " open in the ledger — a shortfall of "@
        + signed_numeral(gone as int)
        + ", MORE than the "@
        + signed_numeral(o.qty as int)
        + " this exit ever ordered. This order cannot account for that; a positions read that dropped rows can. Holding the slot and booking nothing; recon owns any real discrepancy."@
}

/// An order vanished, and more is gone than it ordered.
pub fn vanished_too_much(o: &Order, held: i64, expected: i64, gone: i64) -> (r: String)
    ensures
        r@ == vanished_too_much_text(*o, held, expected, gone),
{
    let mut s: String = "[maker-exit] ".to_owned();
    s.append(o.rest_market());
    s.append(" has vanished from the venue (404) and venue truth says we hold ");
    s.append(plain_text(held).as_str());
    s.append(" there against ");
    s.append(signed_number(expected).as_str());
    s.append(" open in the ledger — a shortfall of ");
    s.append(signed_number(gone).as_str());
    s.append(", MORE than the ");
    s.append(signed_number(o.qty).as_str());
    s.append(" this exit ever ordered. This order cannot account for that; a positions read that dropped rows can. Holding the slot and booking nothing; recon owns any real discrepancy.");
    s
}

pub open spec fn vanished_sold_text(o: Order, verb: Seq<char>, held: i64, expected: i64, gone: i64) -> Seq<char> {
    "[maker-exit] "@
        + o.rests_on()@
        + " has vanished from the venue (404) and venue truth says it "@
        + verb
        + " first: we hold "@
        + plain(held as int)
        + " there against "@
        + signed_numeral(expected as int)
        + " open in the ledger, a shortfall of "@
        + signed_numeral(gone as int)
        + ". Crossing the other leg on "@
        + o.closes_on()@
        + " for that many now."@
}

/// An order sold, or bought, before it vanished.
pub fn vanished_sold(o: &Order, verb: &str, held: i64, expected: i64, gone: i64) -> (r: String)
    ensures
        r@ == vanished_sold_text(*o, verb@, held, expected, gone),
{
    let mut s: String = "[maker-exit] ".to_owned();
    s.append(o.rest_market());
    s.append(" has vanished from the venue (404) and venue truth says it ");
    s.append(verb);
    s.append(" first: we hold ");
    s.append(plain_text(held).as_str());
    s.append(" there against ");
    s.append(signed_number(expected).as_str());
    s.append(" open in the ledger, a shortfall of ");
    s.append(signed_number(gone).as_str());
    s.append(". Crossing the other leg on ");
    s.append(o.close_market());
    s.append(" for that many now.");
    s
}

// ---------------------------------------------------- looking after an exit

pub open spec fn fill_unread_text(o: Order, why: Seq<char>) -> Seq<char> {
    "[maker-exit] could not read the fill state of "@
        + o.rests_on()@
        + " ("@
        + why
        + ") — leaving it resting and asking again next cycle"@
}

/// The fill of a resting exit cannot be read.
pub fn fill_unread(o: &Order, why: &str) -> (r: String)
    ensures
        r@ == fill_unread_text(*o, why@),
{
    let mut s: String = "[maker-exit] could not read the fill state of ".to_owned();
    s.append(o.rest_market());
    s.append(" (");
    s.append(why);
    s.append(") — leaving it resting and asking again next cycle");
    s
}

pub open spec fn fill_task_failed_text(why: Seq<char>) -> Seq<char> {
    "[maker-exit] fill-read task failed ("@
        + why
        + ")"@
}

/// The fill of a resting exit was perhaps not asked for.
pub fn fill_task_failed(why: &str) -> (r: String)
    ensures
        r@ == fill_task_failed_text(why@),
{
    let mut s: String = "[maker-exit] fill-read task failed (".to_owned();
    s.append(why);
    s.append(")");
    s
}

pub open spec fn filled_partly_text(o: Order, filled: i64) -> Seq<char> {
    "[maker-exit] "@
        + o.rests_on()@
        + " filled "@
        + signed_numeral(filled as int)
        + " of "@
        + signed_numeral(o.qty as int)
        + " — cancelling the remainder before closing, so nothing else can trade while the other leg is open"@
}

/// A resting exit has filled, perhaps in part.
pub fn filled_partly(o: &Order, filled: i64) -> (r: String)
    ensures
        r@ == filled_partly_text(*o, filled),
{
    let mut s: String = "[maker-exit] ".to_owned();
    s.append(o.rest_market());
    s.append(" filled ");
    s.append(signed_number(filled).as_str());
    s.append(" of ");
    s.append(signed_number(o.qty).as_str());
    s.append(" — cancelling the remainder before closing, so nothing else can trade while the other leg is open");
    s
}

pub open spec fn reread_failed_text(o: Order, filled: i64) -> Seq<char> {
    "[maker-exit] could not re-read "@
        + o.rests_on()@
        + " after the cancel — closing the "@
        + signed_numeral(filled as int)
        + " we know traded. If the cancel raced a further fill, the difference is naked and unbooked; CHECK BY HAND."@
}

/// The fill cannot be read again after the cancel.
pub fn reread_failed(o: &Order, filled: i64) -> (r: String)
    ensures
        r@ == reread_failed_text(*o, filled),
{
    let mut s: String = "[maker-exit] could not re-read ".to_owned();
    s.append(o.rest_market());
    s.append(" after the cancel — closing the ");
    s.append(signed_number(filled).as_str());
    s.append(" we know traded. If the cancel raced a further fill, the difference is naked and unbooked; CHECK BY HAND.");
    s
}

pub open spec fn pulling_text(o: Order, why: Seq<char>) -> Seq<char> {
    "[maker-exit] PULLING "@
        + o.market@
        + " — "@
        + why
}

/// A resting exit no longer pays.
pub fn pulling(o: &Order, why: &str) -> (r: String)
    ensures
        r@ == pulling_text(*o, why@),
{
    let mut s: String = "[maker-exit] PULLING ".to_owned();
    s.append(o.market.as_str());
    s.append(" — ");
    s.append(why);
    s
}

pub open spec fn pulled_text(o: Order, id: Seq<char>, age: u64) -> Seq<char> {
    "[maker-exit] pulled "@
        + o.rests_on()@
        + " ("@
        + id
        + ") after "@
        + numeral(seconds(age as int))
        + "s resting"@
}

/// A resting exit was cancelled.
pub fn pulled(o: &Order, id: &str, age: u64) -> (r: String)
    ensures
        r@ == pulled_text(*o, id@, age),
{
    let mut s: String = "[maker-exit] pulled ".to_owned();
    s.append(o.rest_market());
    s.append(" (");
    s.append(id);
    s.append(") after ");
    s.append(seconds_text(age).as_str());
    s.append("s resting");
    s
}

pub open spec fn cancel_failed_text(o: Order, why: Seq<char>, id: Seq<char>, client: Seq<char>) -> Seq<char> {
    "[maker-exit] CANCEL FAILED on "@
        + o.rests_on()@
        + " ("@
        + why
        + ") — order "@
        + id
        + " may still be RESTING. It carries client id "@
        + client
        + " and the account-wide sweep will reach it at kill or exit; nothing else will."@
}

/// A cancel failed.
pub fn cancel_failed(o: &Order, why: &str, id: &str, client: &str) -> (r: String)
    ensures
        r@ == cancel_failed_text(*o, why@, id@, client@),
{
    let mut s: String = "[maker-exit] CANCEL FAILED on ".to_owned();
    s.append(o.rest_market());
    s.append(" (");
    s.append(why);
    s.append(") — order ");
    s.append(id);
    s.append(" may still be RESTING. It carries client id ");
    s.append(client);
    s.append(" and the account-wide sweep will reach it at kill or exit; nothing else will.");
    s
}

pub open spec fn cancel_task_failed_text(why: Seq<char>) -> Seq<char> {
    "[maker-exit] cancel task failed ("@
        + why
        + ")"@
}

/// A cancel was perhaps not sent.
pub fn cancel_task_failed(why: &str) -> (r: String)
    ensures
        r@ == cancel_task_failed_text(why@),
{
    let mut s: String = "[maker-exit] cancel task failed (".to_owned();
    s.append(why);
    s.append(")");
    s
}

// --------------------------------------------------------------- closing

pub open spec fn filled_line_text(o: Order, filled: i64, age: u64) -> Seq<char> {
    "[maker-exit] FILLED "@
        + signed_numeral(filled as int)
        + "x "@
        + o.rests_on()@
        + " @ "@
        + o.limit@
        + " ["@
        + o.shape.tag_text()
        + "] after "@
        + numeral(seconds(age as int))
        + "s resting — crossing to close on "@
        + o.closes_on()@
}

/// A first leg filled.
pub fn filled_line(o: &Order, filled: i64, age: u64) -> (r: String)
    ensures
        r@ == filled_line_text(*o, filled, age),
{
    let mut s: String = "[maker-exit] FILLED ".to_owned();
    s.append(signed_number(filled).as_str());
    s.append("x ");
    s.append(o.rest_market());
    s.append(" @ ");
    s.append(o.limit.as_str());
    s.append(" [");
    s.append(o.shape.tag());
    s.append("] after ");
    s.append(seconds_text(age).as_str());
    s.append("s resting — crossing to close on ");
    s.append(o.close_market());
    s
}

pub open spec fn close_refused_text(why: Seq<char>) -> Seq<char> {
    "the close was refused: "@
        + why
}

/// Why a close that the venue refused did not complete.
pub fn close_refused(why: &str) -> (r: String)
    ensures
        r@ == close_refused_text(why@),
{
    let mut s: String = "the close was refused: ".to_owned();
    s.append(why);
    s
}

pub open spec fn close_task_failed_text(why: Seq<char>) -> Seq<char> {
    "close task failed: "@
        + why
}

/// Why a close that was perhaps not sent did not complete.
pub fn close_task_failed(why: &str) -> (r: String)
    ensures
        r@ == close_task_failed_text(why@),
{
    let mut s: String = "close task failed: ".to_owned();
    s.append(why);
    s
}

pub open spec fn close_unread_text(id: Seq<char>, client: Seq<char>, why: Seq<char>) -> Seq<char> {
    "the close IOC "@
        + id
        + " (client "@
        + client
        + ") was ACCEPTED and its fill could not be read: "@
        + why
}

/// Why a close whose fill cannot be read did not complete.
pub fn close_unread(id: &str, client: &str, why: &str) -> (r: String)
    ensures
        r@ == close_unread_text(id@, client@, why@),
{
    let mut s: String = "the close IOC ".to_owned();
    s.append(id);
    s.append(" (client ");
    s.append(client);
    s.append(") was ACCEPTED and its fill could not be read: ");
    s.append(why);
    s
}

pub open spec fn implausible_text(o: Order, k_px: Seq<char>, pm_px: Seq<char>) -> Seq<char> {
    "[maker-exit] REFUSED the venues' own fill prices for "@
        + o.rel_id@
        + ": kalshi "@
        + k_px
        + " against pm-us "@
        + pm_px
        + " claims more than $1.50 or less than $0.50 a contract out of a basket that can only pay $1.00. Booking the limits instead — this is a price-convention fault, not a bad exit."@
}

/// The prices that the venues gave are implausible together.
pub fn implausible(o: &Order, k_px: &str, pm_px: &str) -> (r: String)
    ensures
        r@ == implausible_text(*o, k_px@, pm_px@),
{
    let mut s: String = "[maker-exit] REFUSED the venues' own fill prices for ".to_owned();
    s.append(o.rel_id.as_str());
    s.append(": kalshi ");
    s.append(k_px);
    s.append(" against pm-us ");
    s.append(pm_px);
    s.append(" claims more than $1.50 or less than $0.50 a contract out of a basket that can only pay $1.00. Booking the limits instead — this is a price-convention fault, not a bad exit.");
    s
}

// --------------------------------------------------------------- healing

pub open spec fn heal_no_positions_text(o: Order, why: Seq<char>, attempts: u32) -> Seq<char> {
    "[maker-exit] HEAL "@
        + o.closes_on()@
        + " — cannot read "@
        + o.shape.closes_at().name()
        + " positions ("@
        + why
        + "), so there is no honest size for the retry. Still naked, still latched; trying again next cycle (attempt "@
        + numeral(attempts as nat)
        + ")."@
}

/// The positions cannot be read.
pub fn heal_no_positions(o: &Order, why: &str, attempts: u32) -> (r: String)
    ensures
        r@ == heal_no_positions_text(*o, why@, attempts),
{
    let mut s: String = "[maker-exit] HEAL ".to_owned();
    s.append(o.close_market());
    s.append(" — cannot read ");
    s.append(o.shape.close_venue().as_str());
    s.append(" positions (");
    s.append(why);
    s.append("), so there is no honest size for the retry. Still naked, still latched; trying again next cycle (attempt ");
    s.append(number(attempts as u64).as_str());
    s.append(").");
    s
}

pub open spec fn heal_no_ledger_text(o: Order, why: Seq<char>) -> Seq<char> {
    "[maker-exit] HEAL "@
        + o.closes_on()@
        + " — the ledger is unreadable ("@
        + why
        + "); nothing may be sized off it. Still latched; retrying next cycle."@
}

/// The ledger cannot be read.
pub fn heal_no_ledger(o: &Order, why: &str) -> (r: String)
    ensures
        r@ == heal_no_ledger_text(*o, why@),
{
    let mut s: String = "[maker-exit] HEAL ".to_owned();
    s.append(o.close_market());
    s.append(" — the ledger is unreadable (");
    s.append(why);
    s.append("); nothing may be sized off it. Still latched; retrying next cycle.");
    s
}

pub open spec fn healed_after_all_text(o: Order, filled: i64) -> Seq<char> {
    "[maker-exit] HEALED "@
        + o.closes_on()@
        + " — venue truth says the close completed after all ("@
        + signed_numeral(filled as int)
        + "x owed, 0 outstanding). Booking the unwind and clearing the latch."@
}

/// The close completed after all.
pub fn healed_after_all(o: &Order, filled: i64) -> (r: String)
    ensures
        r@ == healed_after_all_text(*o, filled),
{
    let mut s: String = "[maker-exit] HEALED ".to_owned();
    s.append(o.close_market());
    s.append(" — venue truth says the close completed after all (");
    s.append(signed_number(filled).as_str());
    s.append("x owed, 0 outstanding). Booking the unwind and clearing the latch.");
    s
}

pub open spec fn heal_waits_text(o: Order, owed: i64, why: Seq<char>, attempts: u32) -> Seq<char> {
    "[maker-exit] HEAL "@
        + o.closes_on()@
        + " — "@
        + signed_numeral(owed as int)
        + " still owed and the close does not pay yet ("@
        + why
        + "). Attempt "@
        + numeral(attempts as nat)
        + " of 10 profitable-only; after that it crosses out regardless, because five naked contracts for months costs more than the spread does."@
}

/// The close does not pay yet.
pub fn heal_waits(o: &Order, owed: i64, why: &str, attempts: u32) -> (r: String)
    ensures
        r@ == heal_waits_text(*o, owed, why@, attempts),
{
    let mut s: String = "[maker-exit] HEAL ".to_owned();
    s.append(o.close_market());
    s.append(" — ");
    s.append(signed_number(owed).as_str());
    s.append(" still owed and the close does not pay yet (");
    s.append(why);
    s.append("). Attempt ");
    s.append(number(attempts as u64).as_str());
    s.append(" of 10 profitable-only; after that it crosses out regardless, because five naked contracts for months costs more than the spread does.");
    s
}

pub open spec fn heal_dark_text(o: Order, owed: i64, why: Seq<char>) -> Seq<char> {
    "[maker-exit] HEAL "@
        + o.closes_on()@
        + " — "@
        + signed_numeral(owed as int)
        + " still owed, past the profitable-only window, and the "@
        + o.shape.closes_at().name()
        + " book has gone DARK ("@
        + why
        + "). A close cannot be priced against no book at any policy. Still latched; retrying next cycle."@
}

/// There is no book to cross.
pub fn heal_dark(o: &Order, owed: i64, why: &str) -> (r: String)
    ensures
        r@ == heal_dark_text(*o, owed, why@),
{
    let mut s: String = "[maker-exit] HEAL ".to_owned();
    s.append(o.close_market());
    s.append(" — ");
    s.append(signed_number(owed).as_str());
    s.append(" still owed, past the profitable-only window, and the ");
    s.append(o.shape.close_venue().as_str());
    s.append(" book has gone DARK (");
    s.append(why);
    s.append("). A close cannot be priced against no book at any policy. Still latched; retrying next cycle.");
    s
}

pub open spec fn heal_touch_unread_text(o: Order, touch: Seq<char>) -> Seq<char> {
    "[maker-exit] HEAL "@
        + o.closes_on()@
        + " — the touch "@
        + touch
        + " does not parse; retrying"@
}

/// The touch is no price.
pub fn heal_touch_unread(o: &Order, touch: &str) -> (r: String)
    ensures
        r@ == heal_touch_unread_text(*o, touch@),
{
    let mut s: String = "[maker-exit] HEAL ".to_owned();
    s.append(o.close_market());
    s.append(" — the touch ");
    s.append(touch);
    s.append(" does not parse; retrying");
    s
}

pub open spec fn heal_no_through_text(o: Order, touch: Seq<char>) -> Seq<char> {
    "[maker-exit] HEAL "@
        + o.closes_on()@
        + " — the touch is "@
        + touch
        + " and one tick through it is not a price. Still latched; retrying next cycle."@
}

/// One tick through the touch is no price.
pub fn heal_no_through(o: &Order, touch: &str) -> (r: String)
    ensures
        r@ == heal_no_through_text(*o, touch@),
{
    let mut s: String = "[maker-exit] HEAL ".to_owned();
    s.append(o.close_market());
    s.append(" — the touch is ");
    s.append(touch);
    s.append(" and one tick through it is not a price. Still latched; retrying next cycle.");
    s
}

pub open spec fn heal_crosses_text(o: Order, owed: i64, attempts: u32, why: Seq<char>, price: Px) -> Seq<char> {
    "[maker-exit] HEAL "@
        + o.closes_on()@
        + " — CROSSING OUT. "@
        + signed_numeral(owed as int)
        + " contract(s) still owed after "@
        + numeral(attempts as nat)
        + " attempts, and the close has not paid at any of them ("@
        + why
        + "). Taking the book at "@
        + on_wire(price)
        + " to be FLAT: this realises a loss, and it is the cheaper side of the trade — the alternative is carrying "@
        + signed_numeral(owed as int)
        + " naked contract(s) to resolution."@
}

/// The close is crossed out at a loss.
pub fn heal_crosses(o: &Order, owed: i64, attempts: u32, why: &str, price: Px) -> (r: String)
    requires
        far_ok(price),
    ensures
        r@ == heal_crosses_text(*o, owed, attempts, why@, price),
{
    let mut s: String = "[maker-exit] HEAL ".to_owned();
    s.append(o.close_market());
    s.append(" — CROSSING OUT. ");
    s.append(signed_number(owed).as_str());
    s.append(" contract(s) still owed after ");
    s.append(number(attempts as u64).as_str());
    s.append(" attempts, and the close has not paid at any of them (");
    s.append(why);
    s.append("). Taking the book at ");
    s.append(px4(price).as_str());
    s.append(" to be FLAT: this realises a loss, and it is the cheaper side of the trade — the alternative is carrying ");
    s.append(signed_number(owed).as_str());
    s.append(" naked contract(s) to resolution.");
    s
}

pub open spec fn heal_refused_text(o: Order, why: Seq<char>, owed: i64, attempts: u32) -> Seq<char> {
    "[maker-exit] HEAL "@
        + o.closes_on()@
        + " — "@
        + o.shape.closes_at().name()
        + " refused the retry ("@
        + why
        + "); "@
        + signed_numeral(owed as int)
        + " still owed, retrying next cycle (attempt "@
        + numeral(attempts as nat)
        + ")"@
}

/// The venue refused a retry.
pub fn heal_refused(o: &Order, why: &str, owed: i64, attempts: u32) -> (r: String)
    ensures
        r@ == heal_refused_text(*o, why@, owed, attempts),
{
    let mut s: String = "[maker-exit] HEAL ".to_owned();
    s.append(o.close_market());
    s.append(" — ");
    s.append(o.shape.close_venue().as_str());
    s.append(" refused the retry (");
    s.append(why);
    s.append("); ");
    s.append(signed_number(owed).as_str());
    s.append(" still owed, retrying next cycle (attempt ");
    s.append(number(attempts as u64).as_str());
    s.append(")");
    s
}

pub open spec fn heal_task_failed_text(o: Order, why: Seq<char>) -> Seq<char> {
    "[maker-exit] HEAL "@
        + o.closes_on()@
        + " — retry task failed ("@
        + why
        + "); retrying next cycle"@
}

/// A retry was perhaps not sent.
pub fn heal_task_failed(o: &Order, why: &str) -> (r: String)
    ensures
        r@ == heal_task_failed_text(*o, why@),
{
    let mut s: String = "[maker-exit] HEAL ".to_owned();
    s.append(o.close_market());
    s.append(" — retry task failed (");
    s.append(why);
    s.append("); retrying next cycle");
    s
}

pub open spec fn healed_by_retry_text(o: Order, owed: i64, price: Seq<char>, attempts: u32, age: u64) -> Seq<char> {
    "[maker-exit] HEALED "@
        + o.closes_on()@
        + " — the retry closed the last "@
        + signed_numeral(owed as int)
        + " contract(s) at "@
        + price
        + " after "@
        + numeral(attempts as nat)
        + " attempt(s) and "@
        + numeral(seconds(age as int))
        + "s naked. Booking the unwind and clearing the latch."@
}

/// A retry closed the last contract.
pub fn healed_by_retry(o: &Order, owed: i64, price: &str, attempts: u32, age: u64) -> (r: String)
    ensures
        r@ == healed_by_retry_text(*o, owed, price@, attempts, age),
{
    let mut s: String = "[maker-exit] HEALED ".to_owned();
    s.append(o.close_market());
    s.append(" — the retry closed the last ");
    s.append(signed_number(owed).as_str());
    s.append(" contract(s) at ");
    s.append(price);
    s.append(" after ");
    s.append(number(attempts as u64).as_str());
    s.append(" attempt(s) and ");
    s.append(seconds_text(age).as_str());
    s.append("s naked. Booking the unwind and clearing the latch.");
    s
}

pub open spec fn heal_short_text(o: Order, got: i64, owed: i64, price: Seq<char>) -> Seq<char> {
    "[maker-exit] HEAL "@
        + o.closes_on()@
        + " — the retry filled "@
        + signed_numeral(got as int)
        + " of "@
        + signed_numeral(owed as int)
        + " at "@
        + price
        + ". Still short; the next cycle re-measures against the venue and finishes it."@
}

/// A retry filled too little.
pub fn heal_short(o: &Order, got: i64, owed: i64, price: &str) -> (r: String)
    ensures
        r@ == heal_short_text(*o, got, owed, price@),
{
    let mut s: String = "[maker-exit] HEAL ".to_owned();
    s.append(o.close_market());
    s.append(" — the retry filled ");
    s.append(signed_number(got).as_str());
    s.append(" of ");
    s.append(signed_number(owed).as_str());
    s.append(" at ");
    s.append(price);
    s.append(". Still short; the next cycle re-measures against the venue and finishes it.");
    s
}

// --------------------------------------------------------------- the cycle

pub open spec fn view_unusable_text(why: Seq<char>) -> Seq<char> {
    "[maker-exit] engine view unusable ("@
        + why
        + ") — pulling the ask"@
}

/// The engine's view cannot be used.
pub fn view_unusable(why: &str) -> (r: String)
    ensures
        r@ == view_unusable_text(why@),
{
    let mut s: String = "[maker-exit] engine view unusable (".to_owned();
    s.append(why);
    s.append(") — pulling the ask");
    s
}

pub open spec fn no_scan_text(why: Seq<char>) -> Seq<char> {
    "[maker-exit] NO SCAN — cannot decide: "@
        + why
}

/// The scan failed.
pub fn no_scan(why: &str) -> (r: String)
    ensures
        r@ == no_scan_text(why@),
{
    let mut s: String = "[maker-exit] NO SCAN — cannot decide: ".to_owned();
    s.append(why);
    s
}

pub open spec fn nothing_to_rest_text(why: Seq<char>) -> Seq<char> {
    "[maker-exit] nothing to rest: "@
        + why
}

/// No candidate may rest.
pub fn nothing_to_rest(why: &str) -> (r: String)
    ensures
        r@ == nothing_to_rest_text(why@),
{
    let mut s: String = "[maker-exit] nothing to rest: ".to_owned();
    s.append(why);
    s
}

pub open spec fn rotating_text(why: Seq<char>) -> Seq<char> {
    "[maker-exit] ROTATING — "@
        + why
}

/// The slot is handed over.
pub fn rotating(why: &str) -> (r: String)
    ensures
        r@ == rotating_text(why@),
{
    let mut s: String = "[maker-exit] ROTATING — ".to_owned();
    s.append(why);
    s
}

pub open spec fn no_pm_leg_text(rel_id: Seq<char>) -> Seq<char> {
    "[maker-exit] NO — "@
        + rel_id
        + " has no polymarket_us leg in the registry, so there is no close leg to price"@
}

/// A candidate has no PM-US leg.
pub fn no_pm_leg(rel_id: &str) -> (r: String)
    ensures
        r@ == no_pm_leg_text(rel_id@),
{
    let mut s: String = "[maker-exit] NO — ".to_owned();
    s.append(rel_id);
    s.append(" has no polymarket_us leg in the registry, so there is no close leg to price");
    s
}

pub open spec fn no_quote_text(market_id: Seq<char>, why: Seq<char>) -> Seq<char> {
    "[maker-exit] NO QUOTE for "@
        + market_id
        + " ("@
        + why
        + ") — cannot price an exit"@
}

/// The quote of a candidate cannot be read.
pub fn no_quote(market_id: &str, why: &str) -> (r: String)
    ensures
        r@ == no_quote_text(market_id@, why@),
{
    let mut s: String = "[maker-exit] NO QUOTE for ".to_owned();
    s.append(market_id);
    s.append(" (");
    s.append(why);
    s.append(") — cannot price an exit");
    s
}

pub open spec fn quote_task_failed_text(market_id: Seq<char>, why: Seq<char>) -> Seq<char> {
    "[maker-exit] quote task failed for "@
        + market_id
        + " ("@
        + why
        + ")"@
}

/// The quote of a candidate was perhaps not asked for.
pub fn quote_task_failed(market_id: &str, why: &str) -> (r: String)
    ensures
        r@ == quote_task_failed_text(market_id@, why@),
{
    let mut s: String = "[maker-exit] quote task failed for ".to_owned();
    s.append(market_id);
    s.append(" (");
    s.append(why);
    s.append(")");
    s
}

pub open spec fn no_ledger_text(why: Seq<char>) -> Seq<char> {
    "[maker-exit] the ledger is unreadable ("@
        + why
        + ") — nothing may be priced off it"@
}

/// The ledger cannot be read.
pub fn no_ledger(why: &str) -> (r: String)
    ensures
        r@ == no_ledger_text(why@),
{
    let mut s: String = "[maker-exit] the ledger is unreadable (".to_owned();
    s.append(why);
    s.append(") — nothing may be priced off it");
    s
}

pub open spec fn undecided_text(rel_id: Seq<char>, why: Seq<char>) -> Seq<char> {
    "[maker-exit] NO — "@
        + rel_id
        + ": "@
        + why
}

/// A candidate was refused.
pub fn undecided(rel_id: &str, why: &str) -> (r: String)
    ensures
        r@ == undecided_text(rel_id@, why@),
{
    let mut s: String = "[maker-exit] NO — ".to_owned();
    s.append(rel_id);
    s.append(": ");
    s.append(why);
    s
}

// ------------------------------------------------------------------ lots

pub open spec fn group_refused_text(why: Seq<char>) -> Seq<char> {
    "[maker-exit] refusing invalid group: "@
        + why
}

/// Lots cannot rest as one.
pub fn group_refused(why: &str) -> (r: String)
    ensures
        r@ == group_refused_text(why@),
{
    let mut s: String = "[maker-exit] refusing invalid group: ".to_owned();
    s.append(why);
    s
}

pub open spec fn lot_placed_text(verb: Seq<char>, o: Order, opened: Seq<char>, members: u64, id: Seq<char>) -> Seq<char> {
    "[maker-exit] "@
        + verb
        + " "@
        + signed_numeral(o.qty as int)
        + "x "@
        + o.rests_on()@
        + " @ "@
        + o.sent_at()@
        + " ["@
        + o.shape.tag_text()
        + "] lot="@
        + o.rel_id@
        + ":"@
        + opened
        + " members="@
        + numeral(members as nat)
        + " — venue id "@
        + id
}

/// The order of a lot was accepted.
pub fn lot_placed(verb: &str, o: &Order, opened: &str, members: u64, id: &str) -> (r: String)
    ensures
        r@ == lot_placed_text(verb@, *o, opened@, members, id@),
{
    let mut s: String = "[maker-exit] ".to_owned();
    s.append(verb);
    s.append(" ");
    s.append(signed_number(o.qty).as_str());
    s.append("x ");
    s.append(o.rest_market());
    s.append(" @ ");
    s.append(o.rest_limit());
    s.append(" [");
    s.append(o.shape.tag());
    s.append("] lot=");
    s.append(o.rel_id.as_str());
    s.append(":");
    s.append(opened);
    s.append(" members=");
    s.append(number(members).as_str());
    s.append(" — venue id ");
    s.append(id);
    s
}

pub open spec fn lot_place_refused_text(o: Order, opened: Seq<char>, why: Seq<char>) -> Seq<char> {
    "[maker-exit] PLACE REFUSED lot="@
        + o.rel_id@
        + ":"@
        + opened
        + ": "@
        + why
}

/// The order of a lot was refused.
pub fn lot_place_refused(o: &Order, opened: &str, why: &str) -> (r: String)
    ensures
        r@ == lot_place_refused_text(*o, opened@, why@),
{
    let mut s: String = "[maker-exit] PLACE REFUSED lot=".to_owned();
    s.append(o.rel_id.as_str());
    s.append(":");
    s.append(opened);
    s.append(": ");
    s.append(why);
    s
}

pub open spec fn lot_place_unknown_text(o: Order, opened: Seq<char>, why: Seq<char>) -> Seq<char> {
    "[maker-exit] PLACE UNCERTAIN lot="@
        + o.rel_id@
        + ":"@
        + opened
        + ": "@
        + why
        + "; retaining reservation and client id for recovery"@
}

/// Whether the order of a lot rests is not known.
pub fn lot_place_unknown(o: &Order, opened: &str, why: &str) -> (r: String)
    ensures
        r@ == lot_place_unknown_text(*o, opened@, why@),
{
    let mut s: String = "[maker-exit] PLACE UNCERTAIN lot=".to_owned();
    s.append(o.rel_id.as_str());
    s.append(":");
    s.append(opened);
    s.append(": ");
    s.append(why);
    s.append("; retaining reservation and client id for recovery");
    s
}

pub open spec fn lot_never_landed_text(o: Order, opened: Seq<char>, client: Seq<char>, age_s: u64) -> Seq<char> {
    "[maker-exit] lot="@
        + o.rel_id@
        + ":"@
        + opened
        + ": client "@
        + client
        + " never reached Kalshi (absent "@
        + numeral(age_s as nat)
        + "s after the lost place); releasing the reservation"@
}

/// The order of a lot never landed.
pub fn lot_never_landed(o: &Order, opened: &str, client: &str, age_s: u64) -> (r: String)
    ensures
        r@ == lot_never_landed_text(*o, opened@, client@, age_s),
{
    let mut s: String = "[maker-exit] lot=".to_owned();
    s.append(o.rel_id.as_str());
    s.append(":");
    s.append(opened);
    s.append(": client ");
    s.append(client);
    s.append(" never reached Kalshi (absent ");
    s.append(number(age_s).as_str());
    s.append("s after the lost place); releasing the reservation");
    s
}

pub open spec fn lot_pulling_text(o: Order, why: Seq<char>) -> Seq<char> {
    "[maker-exit] PULLING "@
        + o.rests_on()@
        + " — "@
        + why
}

/// The order of a lot pays no more.
pub fn lot_pulling(o: &Order, why: &str) -> (r: String)
    ensures
        r@ == lot_pulling_text(*o, why@),
{
    let mut s: String = "[maker-exit] PULLING ".to_owned();
    s.append(o.rest_market());
    s.append(" — ");
    s.append(why);
    s
}

pub open spec fn lot_unfilled_text(o: Order, opened: Seq<char>) -> Seq<char> {
    "[maker-exit] lot="@
        + o.rel_id@
        + ":"@
        + opened
        + ": order terminal, zero fills"@
}

/// The order of a lot is over and filled nothing.
pub fn lot_unfilled(o: &Order, opened: &str) -> (r: String)
    ensures
        r@ == lot_unfilled_text(*o, opened@),
{
    let mut s: String = "[maker-exit] lot=".to_owned();
    s.append(o.rel_id.as_str());
    s.append(":");
    s.append(opened);
    s.append(": order terminal, zero fills");
    s
}

pub open spec fn lot_closed_text(o: Order, opened: Seq<char>, hedge: Seq<char>) -> Seq<char> {
    "[maker-exit] CLOSED "@
        + signed_numeral(o.qty as int)
        + "x "@
        + o.market@
        + " lot="@
        + o.rel_id@
        + ":"@
        + opened
        + " hedge="@
        + hedge
        + " (oldest-first)"@
}

/// Part of a lot is closed and booked.
pub fn lot_closed(o: &Order, opened: &str, hedge: &str) -> (r: String)
    ensures
        r@ == lot_closed_text(*o, opened@, hedge@),
{
    let mut s: String = "[maker-exit] CLOSED ".to_owned();
    s.append(signed_number(o.qty).as_str());
    s.append("x ");
    s.append(o.market.as_str());
    s.append(" lot=");
    s.append(o.rel_id.as_str());
    s.append(":");
    s.append(opened);
    s.append(" hedge=");
    s.append(hedge);
    s.append(" (oldest-first)");
    s
}

pub open spec fn lot_stuck_text(rel_id: Seq<char>, opened: Seq<char>, why: Seq<char>) -> Seq<char> {
    "[maker-exit] lot="@
        + rel_id
        + ":"@
        + opened
        + ": "@
        + why
}

/// Why a lot could not go forward.
pub fn lot_stuck(rel_id: &str, opened: &str, why: &str) -> (r: String)
    ensures
        r@ == lot_stuck_text(rel_id@, opened@, why@),
{
    let mut s: String = "[maker-exit] lot=".to_owned();
    s.append(rel_id);
    s.append(":");
    s.append(opened);
    s.append(": ");
    s.append(why);
    s
}

pub open spec fn ack_lost_text(client: Seq<char>) -> Seq<char> {
    "PM-US acknowledgement lost for "@
        + client
        + "; retaining reservation; venue order identity requires reconciliation"@
}

/// The answer to a PM-US order was lost.
pub fn ack_lost(client: &str) -> (r: String)
    ensures
        r@ == ack_lost_text(client@),
{
    let mut s: String = "PM-US acknowledgement lost for ".to_owned();
    s.append(client);
    s.append("; retaining reservation; venue order identity requires reconciliation");
    s
}

pub open spec fn unconfirmed_text(client: Seq<char>, why: Seq<char>) -> Seq<char> {
    "client "@
        + client
        + " is still unconfirmed ("@
        + why
        + "); no replacement will be sent"@
}

/// An order is still in doubt.
pub fn unconfirmed(client: &str, why: &str) -> (r: String)
    ensures
        r@ == unconfirmed_text(client@, why@),
{
    let mut s: String = "client ".to_owned();
    s.append(client);
    s.append(" is still unconfirmed (");
    s.append(why);
    s.append("); no replacement will be sent");
    s
}

pub open spec fn end_unconfirmed_text(why: Seq<char>) -> Seq<char> {
    "final fill quantity is unconfirmed: "@
        + why
}

/// The end of an order cannot be read.
pub fn end_unconfirmed(why: &str) -> (r: String)
    ensures
        r@ == end_unconfirmed_text(why@),
{
    let mut s: String = "final fill quantity is unconfirmed: ".to_owned();
    s.append(why);
    s
}

pub open spec fn fills_unread_text(why: Seq<char>) -> Seq<char> {
    "cannot read resting fills: "@
        + why
}

/// The fills of a resting order cannot be read.
pub fn fills_unread(why: &str) -> (r: String)
    ensures
        r@ == fills_unread_text(why@),
{
    let mut s: String = "cannot read resting fills: ".to_owned();
    s.append(why);
    s
}

pub open spec fn not_over_text() -> Seq<char> {
    "cancellation is not yet terminal; retaining the lot reservation"@
}

/// A cancelled order is not over yet.
pub fn not_over() -> (r: String)
    ensures
        r@ == not_over_text(),
{
    "cancellation is not yet terminal; retaining the lot reservation".to_owned()
}

pub open spec fn hedge_not_over_text() -> Seq<char> {
    "hedge IOC is not terminal; waiting before retrying"@
}

/// A hedge is not over yet.
pub fn hedge_not_over() -> (r: String)
    ensures
        r@ == hedge_not_over_text(),
{
    "hedge IOC is not terminal; waiting before retrying".to_owned()
}

pub open spec fn hedge_owes_text(owed: i64) -> Seq<char> {
    "hedge partly filled; "@
        + signed_numeral(owed as int)
        + " contract(s) still owed"@
}

/// A hedge filled in part.
pub fn hedge_owes(owed: i64) -> (r: String)
    ensures
        r@ == hedge_owes_text(owed),
{
    let mut s: String = "hedge partly filled; ".to_owned();
    s.append(signed_number(owed).as_str());
    s.append(" contract(s) still owed");
    s
}

pub open spec fn hedge_no_view_text() -> Seq<char> {
    "no fresh engine view to price the hedge"@
}

/// There is no fresh view.
pub fn hedge_no_view() -> (r: String)
    ensures
        r@ == hedge_no_view_text(),
{
    "no fresh engine view to price the hedge".to_owned()
}

pub open spec fn hedge_refused_text(why: Seq<char>) -> Seq<char> {
    "hedge refused: "@
        + why
}

/// A hedge was refused.
pub fn hedge_refused(why: &str) -> (r: String)
    ensures
        r@ == hedge_refused_text(why@),
{
    let mut s: String = "hedge refused: ".to_owned();
    s.append(why);
    s
}

pub open spec fn hedge_unknown_text(why: Seq<char>) -> Seq<char> {
    "hedge acceptance unknown: "@
        + why
}

/// Whether a hedge was accepted is not known.
pub fn hedge_unknown(why: &str) -> (r: String)
    ensures
        r@ == hedge_unknown_text(why@),
{
    let mut s: String = "hedge acceptance unknown: ".to_owned();
    s.append(why);
    s
}

} // verus!
