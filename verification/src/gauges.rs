//! The counters that the exit pass reports.
use vstd::prelude::*;

verus! {

/// What the exit pass has done since it started.
#[derive(Clone, Copy, Debug, PartialEq, Eq, Structural)]
pub struct Gauges {
    /// Exits rested or crossed at a venue.
    pub placed: u64,
    /// Exits that filled and whose basket was booked closed.
    pub closed: u64,
    /// Decisions declined; declining is the resting state.
    pub refused: u64,
    /// Legs left naked. It only rises.
    pub unresolved: u64,
    /// Naked legs that were closed again without a hand.
    pub healed: u64,
}

impl Gauges {
    pub fn new() -> (r: Gauges)
        ensures
            r == (Gauges { placed: 0, closed: 0, refused: 0, unresolved: 0, healed: 0 }),
    {
        Gauges { placed: 0, closed: 0, refused: 0, unresolved: 0, healed: 0 }
    }

    /// The gauges with one more exit placed.
    pub open spec fn plus_placed(self) -> Gauges {
        Gauges { placed: self.placed.wrapping_add(1), ..self }
    }

    /// The gauges with one more basket closed.
    pub open spec fn plus_closed(self) -> Gauges {
        Gauges { closed: self.closed.wrapping_add(1), ..self }
    }

    /// The gauges with one more decision declined.
    pub open spec fn plus_refused(self) -> Gauges {
        Gauges { refused: self.refused.wrapping_add(1), ..self }
    }

    /// The gauges with one more leg left naked.
    pub open spec fn plus_unresolved(self) -> Gauges {
        Gauges { unresolved: self.unresolved.wrapping_add(1), ..self }
    }

    /// The gauges with one more naked leg closed.
    pub open spec fn plus_healed(self) -> Gauges {
        Gauges { healed: self.healed.wrapping_add(1), ..self }
    }

    pub fn note_placed(&mut self)
        ensures
            *final(self) == old(self).plus_placed(),
    {
        self.placed = self.placed.wrapping_add(1);
    }

    pub fn note_closed(&mut self)
        ensures
            *final(self) == old(self).plus_closed(),
    {
        self.closed = self.closed.wrapping_add(1);
    }

    pub fn note_unresolved(&mut self)
        ensures
            *final(self) == old(self).plus_unresolved(),
    {
        self.unresolved = self.unresolved.wrapping_add(1);
    }

    pub fn note_healed(&mut self)
        ensures
            *final(self) == old(self).plus_healed(),
    {
        self.healed = self.healed.wrapping_add(1);
    }
}

pub fn placed(g: &Gauges) -> (r: u64)
    ensures
        r == g.placed,
{
    g.placed
}

pub fn closed(g: &Gauges) -> (r: u64)
    ensures
        r == g.closed,
{
    g.closed
}

pub fn refused(g: &Gauges) -> (r: u64)
    ensures
        r == g.refused,
{
    g.refused
}

pub fn unresolved(g: &Gauges) -> (r: u64)
    ensures
        r == g.unresolved,
{
    g.unresolved
}

pub fn healed(g: &Gauges) -> (r: u64)
    ensures
        r == g.healed,
{
    g.healed
}

/// Naked legs carried now: raised less healed, and never below zero.
pub open spec fn carried(g: Gauges) -> int {
    if g.unresolved >= g.healed {
        g.unresolved - g.healed
    } else {
        0
    }
}

/// Naked legs carried now.
pub fn outstanding(g: &Gauges) -> (r: u64)
    ensures
        r == carried(*g),
{
    if g.unresolved >= g.healed {
        g.unresolved - g.healed
    } else {
        0
    }
}

/// Counts a decision declined, and hands its reason back unchanged.
pub fn refuse<T>(g: &mut Gauges, why: T) -> (r: T)
    ensures
        r == why,
        *final(g) == old(g).plus_refused(),
{
    g.refused = g.refused.wrapping_add(1);
    why
}

/// Healing takes a leg off the count that is carried and leaves the count of
/// incidents alone; a new incident adds to both.
pub proof fn law_healing_clears_the_latch_and_not_the_record(g: Gauges)
    requires
        g.unresolved < u64::MAX,
        g.healed < u64::MAX,
    ensures
        g.plus_healed().unresolved == g.unresolved,
        g.unresolved > g.healed ==> carried(g.plus_healed()) == carried(g) - 1,
        g.plus_unresolved().unresolved == g.unresolved + 1,
        g.unresolved >= g.healed ==> carried(g.plus_unresolved()) == carried(g) + 1,
{
}

/// A leg left naked is not counted as a decision declined, nor the other way
/// round.
pub proof fn law_a_naked_leg_is_not_a_refusal(g: Gauges)
    ensures
        g.plus_unresolved().refused == g.refused,
        g.plus_refused().unresolved == g.unresolved,
        carried(g.plus_refused()) == carried(g),
{
}

} // verus!
