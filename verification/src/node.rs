//! Nodes: the handler capability every node implements, and the named stack
//! entry that pairs a handler with its node's name.

use vstd::prelude::*;
use vstd::string::StringExecFns;
use std::cell::RefCell;
use std::sync::Arc;
use crate::comp::NodeComponent;
use crate::event::{Event, EventWrapper, EventPhase};
use crate::ctx::NodeContext;

verus! {

/// An error out of navigation or child construction.
#[derive(Debug)]
pub enum NavError {
    /// A handler refused to construct the requested child.
    Refused(String),
    /// An in-flight construction request resolved to failure.
    Failed(String),
    /// The construction slot was dropped without an answer.
    Abandoned,
}

/// A named handler: one entry of the node stack.
pub struct NamedNodeHandlerBox<B> {
    /// The name of the node: its path segment (the root is named `/`).
    pub name: String,
    /// The node's handler.
    pub node: B,
}

/// The result of a completed construction request: a new stack entry, or the
/// producer's error.
pub type NodeHandlerCreated<B> = Result<NamedNodeHandlerBox<B>, NavError>;

/// A pending request for the creation of a node handler: the consumer half of
/// a one-shot completion slot.
pub type NodeHandlerRequest<B> = futures::channel::oneshot::Receiver<NodeHandlerCreated<B>>;

/// A potential pending request for the creation of a node handler.
pub type NodeHandlerRequestRes<B> = Result<NodeHandlerRequest<B>, NavError>;

/// The names of a run of stack entries, in stack order.
pub open spec fn names_of<B>(cons: Seq<NamedNodeHandlerBox<B>>) -> Seq<Seq<char>> {
    cons.map_values(|e: NamedNodeHandlerBox<B>| e.name@)
}

/// What every handler call leaves of the context it was handed: the node's
/// name and the names of the ancestor run are exactly what they were. The
/// handler may mutate its own state and the ancestors' handler state, but it
/// cannot grow, shrink or rename the visible stack.
pub open spec fn context_shape_preserved<B>(pre: NodeContext<B>, post: NodeContext<B>) -> bool {
    &&& post.name@ == pre.name@
    &&& names_of(post.cons@) == names_of(pre.cons@)
}

/// All user logic and state for a node is owned by its associated handler.
///
/// `B` is the handler type of the node stack the handler lives on: the
/// entries a handler sees in its context, and the entries its construction
/// requests resolve to, are of that type.
pub trait NodeHandler<B>: Sized {
    /// The component type this handler stores and serves.
    type Comp: NodeComponent;

    /// Model of the exclusively-owned components, by type key. A handler
    /// that stores none leaves the default: the empty registry.
    open spec fn spec_comps(&self) -> Map<u64, Self::Comp> {
        Map::empty()
    }

    /// Model of the singly-mutable-shared components, by type key.
    open spec fn spec_comps_mut(&self) -> Map<u64, RefCell<Self::Comp>> {
        Map::empty()
    }

    /// Model of the multiply-shared components, by type key.
    open spec fn spec_comps_arc(&self) -> Map<u64, Self::Comp> {
        Map::empty()
    }

    /// Called when a new child node is to be created. `name` is the child's
    /// full path. The default refuses: a plain node has no children.
    fn handle_node_request(&mut self, name: String, context: &mut NodeContext<B>) -> (r:
        NodeHandlerRequestRes<B>)
        ensures
            context_shape_preserved(*old(context), *final(context)),
    {
        Err(NavError::Refused(String::from_str("Node has no children")))
    }

    /// Called when the node receives an [`Event`], wrapped in an
    /// [`EventWrapper`]. May return a sub-event to be re-dispatched below
    /// this node. The default takes no action and emits nothing.
    ///
    /// A handler may clear cancellation flags but can never set one again,
    /// may not turn the phase, and leaves the shape of its context alone.
    fn handle_event<E: Event>(&mut self, event: &mut EventWrapper<E>, context: &mut NodeContext<
        B,
    >) -> (sub: Option<E>)
        requires
            old(event).spec_phase() != EventPhase::Creation,
        ensures
            old(event).flags_monotone_to(final(event)),
            final(event).spec_phase() == old(event).spec_phase(),
            final(event).spec_hist() == old(event).spec_hist(),
            context_shape_preserved(*old(context), *final(context)),
    {
        None
    }

    /// Called to fetch an exclusively-owned component for a descendant node
    /// (or the backbone): the component stored under `ctype`, if any.
    fn get_comp(&self, ctype: u64) -> (r: Option<&Self::Comp>)
        ensures
            match r {
                Some(c) => self.spec_comps().contains_key(ctype) && *c == self.spec_comps()[ctype],
                None => !self.spec_comps().contains_key(ctype),
            },
    ;

    /// Called to fetch a singly-mutable-shared component for a descendant
    /// node (or the backbone): the cell stored under `ctype`, if any.
    fn get_comp_mut(&self, ctype: u64) -> (r: Option<&RefCell<Self::Comp>>)
        ensures
            match r {
                Some(c) => self.spec_comps_mut().contains_key(ctype) && *c
                    == self.spec_comps_mut()[ctype],
                None => !self.spec_comps_mut().contains_key(ctype),
            },
    ;

    /// Called to fetch a multiply-shared component for a descendant node (or
    /// the backbone): a fresh handle to the value stored under `ctype`, if
    /// any.
    fn get_comp_arc(&self, ctype: u64) -> (r: Option<Arc<Self::Comp>>)
        ensures
            match r {
                Some(c) => self.spec_comps_arc().contains_key(ctype) && c
                    == self.spec_comps_arc()[ctype],
                None => !self.spec_comps_arc().contains_key(ctype),
            },
    ;
}

/// A handler that may also cross threads.
pub trait NodeHandlerSync<B>: NodeHandler<B> + Send + Sync {

}

/// An event handler that does precisely nothing: it refuses children, takes
/// no action on events, and stores no components.
pub struct EmptyEventHandler;

impl<B> NodeHandler<B> for EmptyEventHandler {
    type Comp = crate::comp::NoComponent;

    fn get_comp(&self, ctype: u64) -> (r: Option<&crate::comp::NoComponent>) {
        None
    }

    fn get_comp_mut(&self, ctype: u64) -> (r: Option<&RefCell<crate::comp::NoComponent>>) {
        None
    }

    fn get_comp_arc(&self, ctype: u64) -> (r: Option<Arc<crate::comp::NoComponent>>) {
        None
    }
}

} // verus!
