//! Event wrapper tests: flags, phases, and their one-way movement.

use backbone::event::{Event, EmptyEvent, EventPhase, EventWrapper};

#[test]
fn new_wrapper_starts_fresh() {
    let w = EventWrapper::new(EmptyEvent);
    assert_eq!(w.get_phase(), EventPhase::Creation);
    assert!(w.can_fall());
    assert!(w.can_eval());
    assert!(w.can_rise());
}

#[test]
fn creation_is_never_dispatchable() {
    let w = EventWrapper::new(EmptyEvent);
    assert!(!w.can(EventPhase::Creation));
    assert!(w.can(EventPhase::Falling));
    assert!(w.can(EventPhase::Acting));
    assert!(w.can(EventPhase::Rising));
}

#[test]
fn stop_falling_clears_only_falling() {
    let mut w = EventWrapper::new(EmptyEvent);
    w.stop_falling();
    assert!(!w.can_fall());
    assert!(w.can_eval());
    assert!(w.can_rise());
    assert!(!w.can(EventPhase::Falling));
}

#[test]
fn prevent_action_clears_only_eval() {
    let mut w = EventWrapper::new(EmptyEvent);
    w.prevent_action();
    assert!(w.can_fall());
    assert!(!w.can_eval());
    assert!(w.can_rise());
}

#[test]
fn stop_rising_clears_only_rising() {
    let mut w = EventWrapper::new(EmptyEvent);
    w.stop_rising();
    assert!(w.can_fall());
    assert!(w.can_eval());
    assert!(!w.can_rise());
}

#[test]
fn stop_clears_everything() {
    let mut w = EventWrapper::new(EmptyEvent);
    w.stop();
    assert!(!w.can_fall());
    assert!(!w.can_eval());
    assert!(!w.can_rise());
}

#[test]
fn next_phase_only_moves_forward() {
    let mut w = EventWrapper::new(EmptyEvent);
    assert!(w.next_phase(EventPhase::Acting));
    assert_eq!(w.get_phase(), EventPhase::Acting);
    // Backwards and in place are no-ops.
    assert!(!w.next_phase(EventPhase::Falling));
    assert_eq!(w.get_phase(), EventPhase::Acting);
    assert!(!w.next_phase(EventPhase::Acting));
    assert_eq!(w.get_phase(), EventPhase::Acting);
    assert!(w.next_phase(EventPhase::Rising));
    assert_eq!(w.get_phase(), EventPhase::Rising);
}

#[test]
fn into_phase_keeps_backward_attempts_in_place() {
    let w = EventWrapper::new(EmptyEvent);
    let w = w.into_phase(EventPhase::Rising);
    assert_eq!(w.get_phase(), EventPhase::Rising);
    let w = w.into_phase(EventPhase::Falling);
    assert_eq!(w.get_phase(), EventPhase::Rising);
}

#[test]
fn unwrap_returns_the_event() {
    struct Tagged {
        tag: u32,
    }
    impl Event for Tagged {
    }
    let w = EventWrapper::new(Tagged { tag: 41 });
    assert_eq!(w.get_event().tag, 41);
    let e = w.unwrap();
    assert_eq!(e.tag, 41);
}

#[test]
fn phases_order_creation_to_rising() {
    assert!(EventPhase::Creation < EventPhase::Falling);
    assert!(EventPhase::Falling < EventPhase::Acting);
    assert!(EventPhase::Acting < EventPhase::Rising);
}

#[test]
fn default_event_is_not_silent_and_spawns_nothing() {
    let e = EmptyEvent;
    assert!(!e.is_silent());
    assert!(e.sub_event().is_none());
}
