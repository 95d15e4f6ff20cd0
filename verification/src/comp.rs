//! Components: typed values a node registers under an integer type key and
//! serves to its descendants.

use vstd::prelude::*;
use std::cell::RefCell;

verus! {

/// A component: a value registered under an integer key that stands for its
/// type. Lookup across nodes goes by that key alone; a component answers for
/// the key it was registered under.
pub trait NodeComponent: Sized {
    /// The type key of this component, as the contracts see it. An
    /// implementor whose key is not the default overrides this to match
    /// what [`NodeComponent::get_component_type_id`] returns.
    open spec fn spec_type_id(&self) -> u64 {
        0
    }

    /// Returns the type key for this component.
    fn get_component_type_id(&self) -> (k: u64)
        ensures
            k == self.spec_type_id(),
    ;

    /// Checks if this component has the given type key.
    fn is_of_type(&self, ctype: u64) -> (r: bool)
        ensures
            r == (ctype == self.spec_type_id()),
    {
        ctype == self.get_component_type_id()
    }

    /// Returns an internal name for the component.
    fn get_component_name(&self) -> &str;
}

/// A component that may also be shared across threads.
pub trait NodeComponentSync: NodeComponent + Send + Sync {

}

/// The component type of handlers that store no components at all.
pub struct NoComponent;

impl NodeComponent for NoComponent {
    open spec fn spec_type_id(&self) -> u64 {
        0
    }

    fn get_component_type_id(&self) -> (k: u64)
        ensures
            k == self.spec_type_id(),
    {
        0
    }

    fn get_component_name(&self) -> &str {
        "NoComponent"
    }
}

/// std's `RefCell`, declared so that a cell can stand in fields and
/// signatures. The engine only stores and hands out cells; borrowing their
/// contents is the caller's business.
#[verifier::external_type_specification]
#[verifier::external_body]
#[verifier::reject_recursive_types(T)]
pub struct ExRefCell<T: ?Sized>(RefCell<T>);

/// Relies on std's `RefCell::new` to build the runtime-checked shared cell
/// that carries a singly-mutable-shared component.
#[verifier::external_body]
pub(crate) fn new_ref_cell<T>(value: T) -> RefCell<T> {
    RefCell::new(value)
}

/// Relies on std's `Arc::clone`: the returned handle refers to the same
/// shared allocation, hence carries the same value.
#[verifier::external_body]
pub(crate) fn clone_arc<T>(a: &std::sync::Arc<T>) -> (r: std::sync::Arc<T>)
    ensures
        r == *a,
{
    std::sync::Arc::clone(a)
}

} // verus!
