//! Dispatch protocol tests: phase ordering, cancellation, sub-event
//! containment and component shadowing, observed through a recording
//! handler.

use std::cell::RefCell;
use std::rc::Rc;
use std::sync::Arc;

use backbone::comp::NodeComponent;
use backbone::ctx::{NodeContext, OuterNodeContext};
use backbone::event::{Event, EventPhase, EventWrapper};
use backbone::node::{NamedNodeHandlerBox, NodeHandler, NodeHandlerRequestRes, NavError};
use backbone::Backbone;

/// A component carrying its own key and a payload.
struct ProbeComp {
    key: u64,
    val: i64,
}

impl NodeComponent for ProbeComp {
    fn get_component_type_id(&self) -> u64 {
        self.key
    }

    fn get_component_name(&self) -> &str {
        "ProbeComp"
    }
}

/// An event that knows whether it is a sub-event: sub-events are silent.
struct ProbeEvent {
    silent: bool,
}

impl Event for ProbeEvent {
    fn is_silent(&self) -> bool {
        self.silent
    }

    fn sub_event(&self) -> Option<Self> {
        Some(ProbeEvent { silent: true })
    }
}

type Log = Rc<RefCell<Vec<(String, EventPhase, bool)>>>;

/// A handler that records every visit: the context's current-node name,
/// the phase of the visit, and whether the event was a (silent) sub-event.
struct ProbeHandler {
    log: Log,
    /// Clear `can_fall` when visited during Falling.
    stop_fall: bool,
    /// Return a sub-event when visited during Falling.
    emit_sub: bool,
    comps: Vec<ProbeComp>,
}

impl ProbeHandler {
    fn new(log: &Log) -> Self {
        ProbeHandler { log: log.clone(), stop_fall: false, emit_sub: false, comps: Vec::new() }
    }

    fn entry(name: &str, h: ProbeHandler) -> NamedNodeHandlerBox<ProbeHandler> {
        NamedNodeHandlerBox { name: name.to_string(), node: h }
    }
}

impl NodeHandler<ProbeHandler> for ProbeHandler {
    type Comp = ProbeComp;

    fn handle_node_request(
        &mut self,
        _name: String,
        _context: &mut NodeContext<ProbeHandler>,
    ) -> NodeHandlerRequestRes<ProbeHandler> {
        Err(NavError::Refused("no children".to_string()))
    }

    fn handle_event<E: Event>(
        &mut self,
        event: &mut EventWrapper<E>,
        context: &mut NodeContext<ProbeHandler>,
    ) -> Option<E> {
        self.log.borrow_mut().push((
            context.name.clone(),
            event.get_phase(),
            event.get_event().is_silent(),
        ));
        if event.get_phase() == EventPhase::Falling {
            if self.stop_fall {
                event.stop_falling();
            }
            if self.emit_sub {
                self.emit_sub = false;
                return event.get_event().sub_event();
            }
        }
        None
    }

    fn get_comp(&self, ctype: u64) -> Option<&ProbeComp> {
        self.comps.iter().find(|c| c.key == ctype)
    }

    fn get_comp_mut(&self, _ctype: u64) -> Option<&std::cell::RefCell<ProbeComp>> {
        None
    }

    fn get_comp_arc(&self, _ctype: u64) -> Option<Arc<ProbeComp>> {
        None
    }
}

/// Builds an outer context over ancestors `/`, `a`, `b` with current `c`.
fn three_deep(log: &Log) -> OuterNodeContext<ProbeHandler> {
    OuterNodeContext {
        context: NodeContext {
            name: "c".to_string(),
            cons: vec![
                ProbeHandler::entry("/", ProbeHandler::new(log)),
                ProbeHandler::entry("a", ProbeHandler::new(log)),
                ProbeHandler::entry("b", ProbeHandler::new(log)),
            ],
        },
        current: ProbeHandler::entry("c", ProbeHandler::new(log)),
    }
}

#[test]
fn phase_ordering_full_pass() {
    let log: Log = Rc::new(RefCell::new(Vec::new()));
    let mut ctx = three_deep(&log);
    let _ = ctx.process_event(ProbeEvent { silent: false });
    let got = log.borrow();
    let want = vec![
        ("/".to_string(), EventPhase::Falling, false),
        ("a".to_string(), EventPhase::Falling, false),
        ("b".to_string(), EventPhase::Falling, false),
        ("c".to_string(), EventPhase::Acting, false),
        ("b".to_string(), EventPhase::Rising, false),
        ("a".to_string(), EventPhase::Rising, false),
        ("/".to_string(), EventPhase::Rising, false),
    ];
    assert_eq!(*got, want);
}

#[test]
fn monotone_cancellation_skips_deeper_falls() {
    let log: Log = Rc::new(RefCell::new(Vec::new()));
    let mut ctx = three_deep(&log);
    // The handler at index 1 ("a") clears can_fall when it falls.
    ctx.context.cons[1].node.stop_fall = true;
    let _ = ctx.process_event(ProbeEvent { silent: false });
    let got = log.borrow();
    let want = vec![
        ("/".to_string(), EventPhase::Falling, false),
        ("a".to_string(), EventPhase::Falling, false),
        // "b" is never visited falling: the pass stops at "a".
        ("c".to_string(), EventPhase::Acting, false),
        ("b".to_string(), EventPhase::Rising, false),
        ("a".to_string(), EventPhase::Rising, false),
        ("/".to_string(), EventPhase::Rising, false),
    ];
    assert_eq!(*got, want);
}

#[test]
fn sub_event_contained_below_emitter() {
    let log: Log = Rc::new(RefCell::new(Vec::new()));
    let mut ctx = three_deep(&log);
    // The handler at index 1 ("a") emits a sub-event during Falling.
    ctx.context.cons[1].node.emit_sub = true;
    let _ = ctx.process_event(ProbeEvent { silent: false });
    let got = log.borrow();
    // The sub-event (silent) is dispatched into the window strictly below
    // "a" — ancestors "b" plus the target "c" — before the outer falling
    // pass resumes at "b".
    let want = vec![
        ("/".to_string(), EventPhase::Falling, false),
        ("a".to_string(), EventPhase::Falling, false),
        ("b".to_string(), EventPhase::Falling, true),
        ("c".to_string(), EventPhase::Acting, true),
        ("b".to_string(), EventPhase::Rising, true),
        ("b".to_string(), EventPhase::Falling, false),
        ("c".to_string(), EventPhase::Acting, false),
        ("b".to_string(), EventPhase::Rising, false),
        ("a".to_string(), EventPhase::Rising, false),
        ("/".to_string(), EventPhase::Rising, false),
    ];
    assert_eq!(*got, want);
    // No silent visit ever reached "a" or the root.
    for (name, _, silent) in got.iter() {
        if *silent {
            assert_ne!(name, "a");
            assert_ne!(name, "/");
        }
    }
}

#[test]
fn prevent_action_skips_acting() {
    let log: Log = Rc::new(RefCell::new(Vec::new()));
    let mut ctx = three_deep(&log);
    let mut wrapper = EventWrapper::new(ProbeEvent { silent: false });
    wrapper.prevent_action();
    ctx.process_event_wrapper(&mut wrapper);
    let got = log.borrow();
    for (name, phase, _) in got.iter() {
        assert_ne!(*phase, EventPhase::Acting, "acting visit at {name}");
    }
    assert_eq!(got.len(), 6);
}

#[test]
fn component_shadowing_prefers_current() {
    let log: Log = Rc::new(RefCell::new(Vec::new()));
    let mut ctx = three_deep(&log);
    // Ancestor "a" and the target both register key 7.
    ctx.context.cons[1].node.comps.push(ProbeComp { key: 7, val: 100 });
    ctx.current.node.comps.push(ProbeComp { key: 7, val: 200 });
    let got = ctx.get_component(7).expect("component");
    assert_eq!(got.val, 200);
}

#[test]
fn component_resolution_nearest_ancestor_wins() {
    let log: Log = Rc::new(RefCell::new(Vec::new()));
    let mut ctx = three_deep(&log);
    ctx.context.cons[0].node.comps.push(ProbeComp { key: 9, val: 1 });
    ctx.context.cons[2].node.comps.push(ProbeComp { key: 9, val: 3 });
    // The target has none: the nearest ancestor ("b", index 2) answers.
    let got = ctx.get_component(9).expect("component");
    assert_eq!(got.val, 3);
    // From the ancestors alone, the same.
    let got = ctx.context.get_cons_component(9).expect("component");
    assert_eq!(got.val, 3);
    // A key nobody registered resolves to nothing.
    assert!(ctx.get_component(8).is_none());
}

#[test]
fn get_child_name_builds_full_path() {
    let log: Log = Rc::new(RefCell::new(Vec::new()));
    let ctx = three_deep(&log);
    assert_eq!(ctx.get_child_name("d"), "/a/b/c/d");
    let root_only = OuterNodeContext::<ProbeHandler> {
        context: NodeContext { name: "/".to_string(), cons: vec![] },
        current: ProbeHandler::entry("/", ProbeHandler::new(&log)),
    };
    assert_eq!(root_only.get_child_name("child"), "/child");
}

#[test]
fn subcontext_split_and_restore_partition() {
    let log: Log = Rc::new(RefCell::new(Vec::new()));
    let mut ctx = three_deep(&log);
    let sub = ctx.get_subcontext_before(1).expect("split");
    assert_eq!(sub.context.name, "a");
    assert_eq!(sub.current.name, "a");
    assert_eq!(sub.context.cons.len(), 1);
    assert_eq!(sub.context.cons[0].name, "/");
    assert_eq!(ctx.context.cons.len(), 1);
    assert_eq!(ctx.context.cons[0].name, "b");
    assert_eq!(ctx.current.name, "c");
    ctx.restore_subcontext_before(sub);
    let names: Vec<&str> = ctx.context.cons.iter().map(|e| e.name.as_str()).collect();
    assert_eq!(names, vec!["/", "a", "b"]);
    assert_eq!(ctx.current.name, "c");
    // Splitting past the end yields nothing and changes nothing.
    assert!(ctx.get_subcontext_before(3).is_none());
    assert_eq!(ctx.context.cons.len(), 3);
}

#[test]
fn backbone_context_take_and_restore_roundtrip() {
    let log: Log = Rc::new(RefCell::new(Vec::new()));
    let mut bb = Backbone::from_obj(ProbeHandler::new(&log));
    let ctx = bb.get_context().expect("context");
    assert_eq!(ctx.context.name, "/");
    assert_eq!(ctx.current.name, "/");
    assert!(ctx.context.cons.is_empty());
    bb.restore_context(ctx);
    assert_eq!(bb.path_as_string(), "/");
    let ctx = bb.get_root_context().expect("root context");
    assert_eq!(ctx.current.name, "/");
    bb.restore_context(ctx);
    assert_eq!(bb.path_as_string(), "/");
    assert!(bb.get_context_at(1).is_none());
}

#[test]
fn dispatch_through_backbone_context_reaches_the_root() {
    let log: Log = Rc::new(RefCell::new(Vec::new()));
    let mut bb = Backbone::from_obj(ProbeHandler::new(&log));
    let mut ctx = bb.get_context().expect("context");
    let _ = ctx.process_event(ProbeEvent { silent: false });
    bb.restore_context(ctx);
    let got = log.borrow();
    // Root-only stack: no ancestors, so the only visit is the acting one.
    assert_eq!(*got, vec![("/".to_string(), EventPhase::Acting, false)]);
}

#[test]
fn subcontext_after_narrows_the_window() {
    let log: Log = Rc::new(RefCell::new(Vec::new()));
    let ctx = three_deep(&log);
    let (sub, kept) = ctx.get_subcontext_after(1);
    assert_eq!(sub.context.name, "c");
    assert_eq!(sub.current.name, "c");
    let names: Vec<&str> = sub.context.cons.iter().map(|e| e.name.as_str()).collect();
    assert_eq!(names, vec!["a", "b"]);
    let held: Vec<&str> = kept.iter().map(|e| e.name.as_str()).collect();
    assert_eq!(held, vec!["/"]);
    let whole = OuterNodeContext::unsplit_subcontext_after(sub, kept);
    let names: Vec<&str> = whole.context.cons.iter().map(|e| e.name.as_str()).collect();
    assert_eq!(names, vec!["/", "a", "b"]);
    assert_eq!(whole.current.name, "c");
}
