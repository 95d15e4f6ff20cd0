//! Navigation tests: path parsing, the thunk queue guards, and the
//! one-thunk-per-tick pump, up to the full navigate-and-construct
//! scenario.

use std::cell::RefCell;
use std::rc::Rc;
use std::sync::Arc;

use backbone::Backbone;
use backbone::comp::NoComponent;
use backbone::ctx::NodeContext;
use backbone::event::{Event, EventPhase, EventWrapper};
use backbone::node::{
    NamedNodeHandlerBox, NavError, NodeHandler, NodeHandlerCreated, NodeHandlerRequestRes,
};
use backbone::thunk::Thunk;

type ParseThunk = Thunk<backbone::node::EmptyEventHandler>;

fn step(path: &str) -> Option<(ParseThunk, &str)> {
    Thunk::parse(path)
}

#[test]
fn parse_round_trip() {
    // parse("/a/../b/./c") yields ToRoot, ToNode(a), ToParent, ToNode(b),
    // ToSelf, ToNode(c), in that order.
    let (t, rest) = step("/a/../b/./c").unwrap();
    assert!(matches!(t, Thunk::ToRoot));
    let (t, rest) = step(rest).unwrap();
    assert!(matches!(t, Thunk::ToNode(ref n) if n == "a"));
    let (t, rest) = step(rest).unwrap();
    assert!(matches!(t, Thunk::ToParent));
    let (t, rest) = step(rest).unwrap();
    assert!(matches!(t, Thunk::ToNode(ref n) if n == "b"));
    let (t, rest) = step(rest).unwrap();
    assert!(matches!(t, Thunk::ToSelf));
    let (t, rest) = step(rest).unwrap();
    assert!(matches!(t, Thunk::ToNode(ref n) if n == "c"));
    assert_eq!(rest, "");
    assert!(step(rest).is_none());
}

#[test]
fn parse_trims_and_rejects_blank() {
    assert!(step("").is_none());
    assert!(step("   \t\n").is_none());
    let (t, rest) = step("  /x  ").unwrap();
    assert!(matches!(t, Thunk::ToRoot));
    assert_eq!(rest, "x");
}

#[test]
fn parse_segment_stops_at_first_slash() {
    // A doubled slash leaves a root-step in the remainder.
    let (t, rest) = step("a//b").unwrap();
    assert!(matches!(t, Thunk::ToNode(ref n) if n == "a"));
    assert_eq!(rest, "/b");
    let (t, rest) = step(rest).unwrap();
    assert!(matches!(t, Thunk::ToRoot));
    assert_eq!(rest, "b");
}

#[test]
fn navigate_queues_parsed_thunks_and_end() {
    let mut bb = Backbone::default();
    bb.navigate("/a/../b/./c");
    assert!(bb.is_moving());
    assert_eq!(bb.thunks_as_string(), "/ a ../ b ./ c !Ok ");
}

#[test]
fn navigate_to_current_path_is_ignored() {
    let mut bb = Backbone::default();
    assert_eq!(bb.path_as_string(), "/");
    bb.navigate("/");
    assert!(bb.is_idle());
    assert!(!bb.is_moving());
}

#[test]
fn navigate_rejected_when_queue_is_full() {
    let mut bb = Backbone::default();
    // 18 self-steps plus the end marker: 19 thunks queued.
    bb.navigate("./././././././././././././././././.");
    let queued = bb.thunks_as_string();
    assert_eq!(queued.split_whitespace().count(), 19);
    // More than 16 thunks are already queued: a further request is dropped.
    bb.navigate("x");
    assert_eq!(bb.thunks_as_string(), queued);
}

#[test]
fn one_step_pump_drains_one_thunk_per_tick() {
    let mut bb = Backbone::default();
    bb.navigate("././.");
    // Three self-steps plus End: exactly four ticks to drain.
    let mut ticks = 0;
    while bb.is_moving() {
        bb.update().unwrap();
        ticks += 1;
        assert!(ticks <= 4);
    }
    assert_eq!(ticks, 4);
    assert_eq!(bb.path_as_string(), "/");
}

#[test]
fn parent_of_root_is_refused_silently() {
    let mut bb = Backbone::default();
    bb.navigate("..");
    bb.update().unwrap();
    bb.update().unwrap();
    assert!(bb.is_idle());
    assert_eq!(bb.path_as_string(), "/");
}

#[test]
fn refused_construction_surfaces_an_error() {
    // The default handler has no children: ToNode converts to an error
    // thunk, which the next tick returns to the caller.
    let mut bb = Backbone::default();
    bb.navigate("child");
    bb.update().unwrap();
    let got = bb.update();
    assert!(matches!(got, Err(NavError::Refused(_))));
    // The queue goes on past the error: the End marker is still there.
    assert!(bb.is_moving());
    bb.update().unwrap();
    assert!(bb.is_idle());
}

/// What a builder does with a construction request.
enum BuildMode {
    /// Create the channel and remember the sender for the test to resolve.
    Accept,
    /// Create the channel but drop the sender at once.
    Abandon,
}

type Pending = Rc<RefCell<Vec<(String, futures::channel::oneshot::Sender<NodeHandlerCreated<Builder>>)>>>;
type Log = Rc<RefCell<Vec<(String, EventPhase)>>>;

/// A handler that builds children asynchronously and records the events
/// it sees.
struct Builder {
    pending: Pending,
    log: Log,
    mode: BuildMode,
}

impl Builder {
    fn accepting(pending: &Pending, log: &Log) -> Self {
        Builder { pending: pending.clone(), log: log.clone(), mode: BuildMode::Accept }
    }
}

impl NodeHandler<Builder> for Builder {
    type Comp = NoComponent;

    fn handle_node_request(
        &mut self,
        name: String,
        _context: &mut NodeContext<Builder>,
    ) -> NodeHandlerRequestRes<Builder> {
        let (tx, rx) = futures::channel::oneshot::channel();
        match self.mode {
            BuildMode::Accept => self.pending.borrow_mut().push((name, tx)),
            BuildMode::Abandon => drop(tx),
        }
        Ok(rx)
    }

    fn handle_event<E: Event>(
        &mut self,
        event: &mut EventWrapper<E>,
        context: &mut NodeContext<Builder>,
    ) -> Option<E> {
        self.log.borrow_mut().push((context.name.clone(), event.get_phase()));
        None
    }

    fn get_comp(&self, _ctype: u64) -> Option<&NoComponent> {
        None
    }

    fn get_comp_mut(&self, _ctype: u64) -> Option<&RefCell<NoComponent>> {
        None
    }

    fn get_comp_arc(&self, _ctype: u64) -> Option<Arc<NoComponent>> {
        None
    }
}

/// Resolves every outstanding construction request with a fresh builder
/// node named by the last path segment.
fn resolve_pending(pending: &Pending, log: &Log) {
    for (full_path, tx) in pending.borrow_mut().drain(..) {
        let segment = full_path.rsplit('/').next().unwrap().to_string();
        let node = Builder::accepting(pending, log);
        tx.send(Ok(NamedNodeHandlerBox { name: segment, node })).ok().unwrap();
    }
}

#[test]
fn end_to_end_navigation_constructs_and_completes() {
    let pending: Pending = Rc::new(RefCell::new(Vec::new()));
    let log: Log = Rc::new(RefCell::new(Vec::new()));
    let mut bb = Backbone::from_obj(Builder::accepting(&pending, &log));
    bb.navigate("/child/grand");
    // Queue: ToRoot, ToNode(child), ToNode(grand), End.
    let mut ticks = 0;
    while bb.is_moving() {
        bb.update().unwrap();
        resolve_pending(&pending, &log);
        ticks += 1;
        assert!(ticks <= 6);
    }
    // One tick per thunk, plus one Waiting resolution per construction.
    assert_eq!(ticks, 6);
    assert_eq!(bb.path_as_string(), "/child/grand");
    // The completion event was dispatched with the new node as target:
    // it fell through the ancestors, acted on "grand", and rose back.
    let got = log.borrow();
    let want = vec![
        ("/".to_string(), EventPhase::Falling),
        ("child".to_string(), EventPhase::Falling),
        ("grand".to_string(), EventPhase::Acting),
        ("child".to_string(), EventPhase::Rising),
        ("/".to_string(), EventPhase::Rising),
    ];
    assert_eq!(*got, want);
}

#[test]
fn to_root_pops_one_parent_per_tick() {
    let pending: Pending = Rc::new(RefCell::new(Vec::new()));
    let log: Log = Rc::new(RefCell::new(Vec::new()));
    let mut bb = Backbone::from_obj(Builder::accepting(&pending, &log));
    bb.navigate("/a/b");
    while bb.is_moving() {
        bb.update().unwrap();
        resolve_pending(&pending, &log);
    }
    assert_eq!(bb.path_as_string(), "/a/b");
    bb.navigate("/");
    // ToRoot re-enqueues one ToParent per tick until the root is reached:
    // ToRoot, ToParent, ToRoot, ToParent, ToRoot, End — six ticks.
    let mut ticks = 0;
    while bb.is_moving() {
        bb.update().unwrap();
        ticks += 1;
        assert!(ticks <= 6);
    }
    assert_eq!(ticks, 6);
    assert_eq!(bb.path_as_string(), "/");
}

#[test]
fn abandoned_construction_becomes_an_error() {
    let pending: Pending = Rc::new(RefCell::new(Vec::new()));
    let log: Log = Rc::new(RefCell::new(Vec::new()));
    let mut bb = Backbone::from_obj(Builder {
        pending: pending.clone(),
        log: log.clone(),
        mode: BuildMode::Abandon,
    });
    bb.navigate("child");
    bb.update().unwrap();  // ToNode: request accepted, sender dropped
    bb.update().unwrap();  // Waiting: the producer is gone; an error queues
    let got = bb.update();  // the error reaches the front and surfaces
    assert!(matches!(got, Err(NavError::Abandoned)));
}

#[test]
fn waiting_request_blocks_at_the_front_without_blocking_the_caller() {
    let pending: Pending = Rc::new(RefCell::new(Vec::new()));
    let log: Log = Rc::new(RefCell::new(Vec::new()));
    let mut bb = Backbone::from_obj(Builder::accepting(&pending, &log));
    bb.navigate("child");
    bb.update().unwrap();  // ToNode -> Waiting
    // Not resolved: each tick returns at once and keeps waiting.
    bb.update().unwrap();
    bb.update().unwrap();
    assert_eq!(bb.path_as_string(), "/");
    resolve_pending(&pending, &log);
    bb.update().unwrap();  // Waiting resolves: enter the child
    assert_eq!(bb.path_as_string(), "/child");
    bb.update().unwrap();  // End
    assert!(bb.is_idle());
}
