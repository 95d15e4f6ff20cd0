//! Events, the wrapper that carries one through a dispatch, and the phases of
//! that dispatch.

use vstd::prelude::*;

verus! {

/// An event value carried through the backbone by an [`EventWrapper`].
///
/// The engine does not interpret the event; it only asks whether the event
/// wants to stay out of diagnostic output.
pub trait Event: Sized {
    /// Should the event not be logged?
    fn is_silent(&self) -> bool {
        false
    }

    /// A fresh sub-event derived from this event, if this event type
    /// offers one. A handler that wants to inject a sub-event during
    /// dispatch returns this; the kind is the event type's business, the
    /// moment of injection the handler's.
    fn sub_event(&self) -> Option<Self> {
        None
    }
}

/// A basic empty event.
pub struct EmptyEvent;

impl Event for EmptyEvent {

}

/// The phase (or state) of an event as it is being processed.
#[derive(Eq, PartialEq, Structural, Hash, Clone, Copy, Debug, Ord, PartialOrd)]
pub enum EventPhase {
    /// The event is being wrapped in an `EventWrapper`.
    Creation,
    /// The event is flowing towards its destination.
    Falling,
    /// The event is being evaluated by its destination.
    Acting,
    /// The event is flowing back towards its source.
    Rising,
}

/// The position of a phase in the fixed forward order
/// Creation < Falling < Acting < Rising.
pub open spec fn phase_rank(p: EventPhase) -> int {
    match p {
        EventPhase::Creation => 1,
        EventPhase::Falling => 2,
        EventPhase::Acting => 3,
        EventPhase::Rising => 4,
    }
}

/// One recorded delivery in the history of a dispatch: either the visit of a
/// node's handler, or a whole nested dispatch triggered by a sub-event that
/// the handler visited just before returned.
pub ghost enum HistStep {
    /// A handler was handed the event: the node's name and the phase under
    /// which it was visited.
    Visit { name: Seq<char>, phase: EventPhase },
    /// A sub-event returned by the handler of ancestor `at` was re-dispatched
    /// into the window strictly below that ancestor; `sub` is the full
    /// history of that nested dispatch, and `cf`, `ce`, `cr` are the
    /// cancellation flags its own wrapper ended with.
    Nested { at: int, phase: EventPhase, sub: Seq<HistStep>, cf: bool, ce: bool, cr: bool },
}

impl HistStep {
    /// The phase under which this step happened in its own dispatch.
    pub open spec fn step_phase(self) -> EventPhase {
        match self {
            HistStep::Visit { phase, .. } => phase,
            HistStep::Nested { phase, .. } => phase,
        }
    }
}

/// Wraps an event as it is processed by the backbone: the event itself, the
/// current phase, and one cancellation flag per phase.
///
/// Once a flag is cleared it never becomes true again within the same
/// wrapper's lifetime, and the phase only ever moves forward.
pub struct EventWrapper<E> {
    /// The event being processed.
    pub(crate) event: E,
    /// State of the event.
    pub(crate) phase: EventPhase,
    /// Can the event flow towards its destination?
    pub(crate) can_fall: bool,
    /// Can the event be evaluated by its destination?
    pub(crate) can_eval: bool,
    /// Can the event flow back towards its source?
    pub(crate) can_rise: bool,
    /// History of handler deliveries, recorded by the dispatcher.
    pub(crate) hist: Ghost<Seq<HistStep>>,
}

impl<E> EventWrapper<E> {
    /// The wrapped event.
    pub closed spec fn spec_event(&self) -> E {
        self.event
    }

    /// The current phase.
    pub closed spec fn spec_phase(&self) -> EventPhase {
        self.phase
    }

    /// Whether the event may still flow towards its destination.
    pub closed spec fn spec_can_fall(&self) -> bool {
        self.can_fall
    }

    /// Whether the event may still be evaluated by its destination.
    pub closed spec fn spec_can_eval(&self) -> bool {
        self.can_eval
    }

    /// Whether the event may still flow back towards its source.
    pub closed spec fn spec_can_rise(&self) -> bool {
        self.can_rise
    }

    /// The history of handler deliveries so far.
    pub closed spec fn spec_hist(&self) -> Seq<HistStep> {
        self.hist@
    }

    /// The three cancellation flags as one triple.
    pub open spec fn spec_flags(&self) -> (bool, bool, bool) {
        (self.spec_can_fall(), self.spec_can_eval(), self.spec_can_rise())
    }

    /// True when every flag of `self` that is cleared is also cleared in
    /// `other`: the relation that every handler call preserves, from the
    /// wrapper before the call to the wrapper after it.
    pub open spec fn flags_monotone_to(&self, other: &Self) -> bool {
        &&& !self.spec_can_fall() ==> !other.spec_can_fall()
        &&& !self.spec_can_eval() ==> !other.spec_can_eval()
        &&& !self.spec_can_rise() ==> !other.spec_can_rise()
    }

    /// Wraps the given [`Event`] in a fresh `EventWrapper`: phase `Creation`,
    /// every flag set, empty history.
    pub fn new(event: E) -> (w: Self)
        ensures
            w.spec_event() == event,
            w.spec_phase() == EventPhase::Creation,
            w.spec_can_fall(),
            w.spec_can_eval(),
            w.spec_can_rise(),
            w.spec_hist() == Seq::<HistStep>::empty(),
    {
        EventWrapper {
            event,
            phase: EventPhase::Creation,
            can_fall: true,
            can_eval: true,
            can_rise: true,
            hist: Ghost(Seq::empty()),
        }
    }

    /// Unwraps the `EventWrapper` into the wrapped [`Event`].
    pub fn unwrap(self) -> (e: E)
        ensures
            e == self.spec_event(),
    {
        self.event
    }

    /// Prevents the event from being evaluated by its destination.
    pub fn prevent_action(&mut self)
        ensures
            !final(self).spec_can_eval(),
            final(self).spec_can_fall() == old(self).spec_can_fall(),
            final(self).spec_can_rise() == old(self).spec_can_rise(),
            final(self).spec_phase() == old(self).spec_phase(),
            final(self).spec_event() == old(self).spec_event(),
            final(self).spec_hist() == old(self).spec_hist(),
    {
        self.can_eval = false;
    }

    /// Are we allowed to eval?
    pub fn can_eval(&self) -> (r: bool)
        ensures
            r == self.spec_can_eval(),
    {
        self.can_eval
    }

    /// Stops the flow of the event toward its destination.
    pub fn stop_falling(&mut self)
        ensures
            !final(self).spec_can_fall(),
            final(self).spec_can_eval() == old(self).spec_can_eval(),
            final(self).spec_can_rise() == old(self).spec_can_rise(),
            final(self).spec_phase() == old(self).spec_phase(),
            final(self).spec_event() == old(self).spec_event(),
            final(self).spec_hist() == old(self).spec_hist(),
    {
        self.can_fall = false;
    }

    /// Are we allowed to keep falling?
    pub fn can_fall(&self) -> (r: bool)
        ensures
            r == self.spec_can_fall(),
    {
        self.can_fall
    }

    /// Stops the flow of the event back towards its source.
    pub fn stop_rising(&mut self)
        ensures
            !final(self).spec_can_rise(),
            final(self).spec_can_fall() == old(self).spec_can_fall(),
            final(self).spec_can_eval() == old(self).spec_can_eval(),
            final(self).spec_phase() == old(self).spec_phase(),
            final(self).spec_event() == old(self).spec_event(),
            final(self).spec_hist() == old(self).spec_hist(),
    {
        self.can_rise = false;
    }

    /// Are we allowed to keep rising?
    pub fn can_rise(&self) -> (r: bool)
        ensures
            r == self.spec_can_rise(),
    {
        self.can_rise
    }

    /// The flag that guards the given phase: whether the event may still be
    /// delivered under it. `Creation` is never delivered, so nothing guards
    /// it.
    pub open spec fn spec_can(&self, phase: EventPhase) -> bool {
        match phase {
            EventPhase::Creation => false,
            EventPhase::Falling => self.spec_can_fall(),
            EventPhase::Acting => self.spec_can_eval(),
            EventPhase::Rising => self.spec_can_rise(),
        }
    }

    /// Are we allowed to proceed with the given phase?
    pub fn can(&self, phase: EventPhase) -> (r: bool)
        ensures
            r == self.spec_can(phase),
    {
        match phase {
            EventPhase::Creation => false,
            EventPhase::Falling => self.can_fall,
            EventPhase::Acting => self.can_eval,
            EventPhase::Rising => self.can_rise,
        }
    }

    /// Stop the event completely.
    pub fn stop(&mut self)
        ensures
            !final(self).spec_can_fall(),
            !final(self).spec_can_eval(),
            !final(self).spec_can_rise(),
            final(self).spec_phase() == old(self).spec_phase(),
            final(self).spec_event() == old(self).spec_event(),
            final(self).spec_hist() == old(self).spec_hist(),
    {
        self.can_fall = false;
        self.can_eval = false;
        self.can_rise = false;
    }

    /// Returns the `EventPhase` the event is currently in.
    pub fn get_phase(&self) -> (p: EventPhase)
        ensures
            p == self.spec_phase(),
    {
        self.phase
    }

    /// Returns the wrapped `Event`.
    pub fn get_event(&self) -> (e: &E)
        ensures
            *e == self.spec_event(),
    {
        &self.event
    }

    /// Move into another phase, if it lies forward of the current one;
    /// otherwise the wrapper is returned unchanged.
    pub fn into_phase(self, phase: EventPhase) -> (w: Self)
        ensures
            w.spec_phase() == (if phase_rank(phase) > phase_rank(self.spec_phase()) {
                phase
            } else {
                self.spec_phase()
            }),
            w.spec_event() == self.spec_event(),
            w.spec_flags() == self.spec_flags(),
            w.spec_hist() == self.spec_hist(),
    {
        let mut w = self;
        w.next_phase(phase);
        w
    }

    /// Try to move into the next phase: the phase only ever moves forward,
    /// and an attempt to move backwards (or stay) is a no-op.
    pub fn next_phase(&mut self, phase: EventPhase) -> (moved: bool)
        ensures
            moved == (phase_rank(phase) > phase_rank(old(self).spec_phase())),
            final(self).spec_phase() == (if moved {
                phase
            } else {
                old(self).spec_phase()
            }),
            final(self).spec_event() == old(self).spec_event(),
            final(self).spec_flags() == old(self).spec_flags(),
            final(self).spec_hist() == old(self).spec_hist(),
    {
        if phase_num(phase) > phase_num(self.phase) {
            self.phase = phase;
            true
        } else {
            false
        }
    }
}

impl<E> EventWrapper<E> {
    /// Records one delivery in the history. Only the dispatcher writes
    /// here; handlers leave the history alone.
    pub(crate) fn record(&mut self, step: Ghost<HistStep>)
        ensures
            final(self).spec_hist() == old(self).spec_hist().push(step@),
            final(self).spec_event() == old(self).spec_event(),
            final(self).spec_phase() == old(self).spec_phase(),
            final(self).spec_flags() == old(self).spec_flags(),
    {
        self.hist = Ghost(self.hist@.push(step@));
    }

    /// Builds the wrapper for a sub-event: the new event, this wrapper's
    /// phase and flags as they stand, and a fresh history.
    pub(crate) fn sub_wrapper<F>(&self, event: F) -> (w: EventWrapper<F>)
        ensures
            w.spec_event() == event,
            w.spec_phase() == self.spec_phase(),
            w.spec_flags() == self.spec_flags(),
            w.spec_hist() == Seq::<HistStep>::empty(),
    {
        EventWrapper {
            event,
            phase: self.phase,
            can_fall: self.can_fall,
            can_eval: self.can_eval,
            can_rise: self.can_rise,
            hist: Ghost(Seq::empty()),
        }
    }
}

/// The rank of a phase as a machine integer, for forward-only comparisons.
fn phase_num(p: EventPhase) -> (n: u8)
    ensures
        n == phase_rank(p),
{
    match p {
        EventPhase::Creation => 1,
        EventPhase::Falling => 2,
        EventPhase::Acting => 3,
        EventPhase::Rising => 4,
    }
}

} // verus!
