//! The per-slot life cycle of a tunnel and the IN side's fixed set of
//! slots.

use vstd::prelude::*;

verus! {

/// Where one tunnel slot stands.
#[derive(Clone, Copy, PartialEq, Eq, Structural, Debug)]
pub enum SlotState {
    /// Publishing announcements, waiting for a match.
    Announcing,
    /// A match arrived (IN) or the lock was won (OUT).
    Matched,
    /// Sending the hole-punch burst.
    Punching,
    /// Driving the transport handshake.
    Handshaking,
    /// The tunnel carries traffic.
    Live,
    /// The transport is gone.
    Closed,
}

/// What can happen to a slot.
#[derive(Clone, Copy, PartialEq, Eq, Structural, Debug)]
pub enum SlotEvent {
    /// A match was received, or the broker lock was won.
    MatchFound,
    /// The hole-punch burst begins.
    PunchStarted,
    /// The burst is done; the handshake begins.
    BurstSent,
    /// The transport handshake completed.
    HandshakeCompleted,
    /// The handshake did not complete within its budget.
    HandshakeTimedOut,
    /// The transport was lost or shut down.
    TransportLost,
}

/// The slot life cycle: `Announcing` to `Matched` on a match, onward
/// through punching and handshaking to `Live`; a handshake timeout falls
/// back to `Announcing`; transport loss closes a live slot.  Anything
/// else leaves the state alone.
pub open spec fn slot_next(s: SlotState, e: SlotEvent) -> SlotState {
    match (s, e) {
        (SlotState::Announcing, SlotEvent::MatchFound) => SlotState::Matched,
        (SlotState::Matched, SlotEvent::PunchStarted) => SlotState::Punching,
        (SlotState::Punching, SlotEvent::BurstSent) => SlotState::Handshaking,
        (SlotState::Handshaking, SlotEvent::HandshakeCompleted) => SlotState::Live,
        (SlotState::Handshaking, SlotEvent::HandshakeTimedOut) => SlotState::Announcing,
        (SlotState::Live, SlotEvent::TransportLost) => SlotState::Closed,
        _ => s,
    }
}

/// Executable form of `slot_next`.
pub fn slot_step(s: SlotState, e: SlotEvent) -> (r: SlotState)
    ensures
        r == slot_next(s, e),
{
    match (s, e) {
        (SlotState::Announcing, SlotEvent::MatchFound) => SlotState::Matched,
        (SlotState::Matched, SlotEvent::PunchStarted) => SlotState::Punching,
        (SlotState::Punching, SlotEvent::BurstSent) => SlotState::Handshaking,
        (SlotState::Handshaking, SlotEvent::HandshakeCompleted) => SlotState::Live,
        (SlotState::Handshaking, SlotEvent::HandshakeTimedOut) => SlotState::Announcing,
        (SlotState::Live, SlotEvent::TransportLost) => SlotState::Closed,
        _ => s,
    }
}

/// The IN side's tunnel slots: exactly as many as the configured
/// `connections`.
pub struct SlotSet {
    slots: Vec<SlotState>,
}

impl SlotSet {
    /// The states of the slots.
    pub closed spec fn view(&self) -> Seq<SlotState> {
        self.slots@
    }

    /// `connections = k` gives exactly `k` slots, all announcing.
    pub fn new(k: usize) -> (r: Self)
        ensures
            r@.len() == k,
            forall|i: int| 0 <= i < k ==> r@[i] == SlotState::Announcing,
    {
        let mut slots: Vec<SlotState> = Vec::new();
        let mut i: usize = 0;
        while i < k
            invariant
                i <= k,
                slots@.len() == i,
                forall|j: int| 0 <= j < i ==> slots@[j] == SlotState::Announcing,
            decreases k - i,
        {
            slots.push(SlotState::Announcing);
            i = i + 1;
        }
        SlotSet { slots }
    }

    /// Delivers one event to one slot; every other slot is untouched.
    pub fn on_event(&mut self, i: usize, e: SlotEvent)
        requires
            i < old(self)@.len(),
        ensures
            final(self)@.len() == old(self)@.len(),
            final(self)@[i as int] == slot_next(old(self)@[i as int], e),
            forall|j: int| 0 <= j < old(self)@.len() && j != i ==> final(self)@[j] == old(self)@[j],
    {
        let next = slot_step(self.slots[i], e);
        self.slots[i] = next;
    }

    /// A closed slot reopens: it re-announces, and only it.
    pub fn reopen(&mut self, i: usize)
        requires
            i < old(self)@.len(),
            old(self)@[i as int] == SlotState::Closed,
        ensures
            final(self)@.len() == old(self)@.len(),
            final(self)@[i as int] == SlotState::Announcing,
            forall|j: int| 0 <= j < old(self)@.len() && j != i ==> final(self)@[j] == old(self)@[j],
    {
        self.slots[i] = SlotState::Announcing;
    }

    /// How many slots there are.
    pub fn len(&self) -> (n: usize)
        ensures
            n == self@.len(),
    {
        self.slots.len()
    }

    /// The state of one slot.
    pub fn state_of(&self, i: usize) -> (s: SlotState)
        requires
            i < self@.len(),
        ensures
            s == self@[i as int],
    {
        self.slots[i]
    }
}

} // verus!
