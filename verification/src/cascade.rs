//! A handler that combines two other handlers into one node: an outer
//! handler wrapped around an inner one.

use vstd::prelude::*;
use std::cell::RefCell;
use std::sync::Arc;
use crate::comp::NodeComponent;
use crate::node::{
    NamedNodeHandlerBox, NodeHandler, NodeHandlerRequestRes, context_shape_preserved,
};
use crate::ctx::NodeContext;
use crate::event::{Event, EventWrapper, EventPhase};

verus! {

/// An event handler that cascades two handlers: events and requests reach
/// both, and the inner handler's components shadow the outer's.
pub struct CascadingEventHandler<O, I> {
    /// The outer node.
    pub outer: NamedNodeHandlerBox<O>,
    /// The inner node.
    pub inner: NamedNodeHandlerBox<I>,
}

impl<B, O: NodeHandler<B>, I: NodeHandler<B, Comp = <O as NodeHandler<B>>::Comp>> NodeHandler<
    B,
> for CascadingEventHandler<O, I> {
    type Comp = <O as NodeHandler<B>>::Comp;

    open spec fn spec_comps(&self) -> Map<u64, Self::Comp> {
        self.outer.node.spec_comps().union_prefer_right(self.inner.node.spec_comps())
    }

    open spec fn spec_comps_mut(&self) -> Map<u64, RefCell<Self::Comp>> {
        self.outer.node.spec_comps_mut().union_prefer_right(self.inner.node.spec_comps_mut())
    }

    open spec fn spec_comps_arc(&self) -> Map<u64, Self::Comp> {
        self.outer.node.spec_comps_arc().union_prefer_right(self.inner.node.spec_comps_arc())
    }

    /// A child request goes to the inner handler first; only if it refuses
    /// is the outer handler asked.
    fn handle_node_request(&mut self, name: String, context: &mut NodeContext<B>) -> (r:
        NodeHandlerRequestRes<B>) {
        let inner_req = self.inner.node.handle_node_request(name.clone(), context);
        if let Err(_err) = inner_req {
            return self.outer.node.handle_node_request(name, context);
        }
        inner_req
    }

    /// During Falling the outer handler sees the event first, then — if
    /// falling was not cancelled — the inner one; Acting goes to the inner
    /// handler alone; during Rising the inner handler sees it first, then
    /// — if rising was not cancelled — the outer one.
    fn handle_event<E: Event>(&mut self, event: &mut EventWrapper<E>, context: &mut NodeContext<
        B,
    >) -> (sub: Option<E>) {
        match event.get_phase() {
            EventPhase::Creation => {
                // Never dispatched: an event is delivered only past Creation.
                None
            },
            EventPhase::Falling => {
                let _outer_sub = self.outer.node.handle_event(event, context);
                if !event.can_fall() {
                    return None;
                }
                self.inner.node.handle_event(event, context)
            },
            EventPhase::Acting => { self.inner.node.handle_event(event, context) },
            EventPhase::Rising => {
                let _inner_sub = self.inner.node.handle_event(event, context);
                if !event.can_rise() {
                    return None;
                }
                self.outer.node.handle_event(event, context)
            },
        }
    }

    fn get_comp(&self, ctype: u64) -> (r: Option<&Self::Comp>) {
        match self.inner.node.get_comp(ctype) {
            Some(c) => Some(c),
            None => self.outer.node.get_comp(ctype),
        }
    }

    fn get_comp_mut(&self, ctype: u64) -> (r: Option<&RefCell<Self::Comp>>) {
        match self.inner.node.get_comp_mut(ctype) {
            Some(c) => Some(c),
            None => self.outer.node.get_comp_mut(ctype),
        }
    }

    fn get_comp_arc(&self, ctype: u64) -> (r: Option<Arc<Self::Comp>>) {
        match self.inner.node.get_comp_arc(ctype) {
            Some(c) => Some(c),
            None => self.outer.node.get_comp_arc(ctype),
        }
    }
}

} // verus!
