//! Component store and cascade tests: the three ownership tiers, merge
//! semantics, and the inner-first cascade.

use std::cell::RefCell;
use std::sync::Arc;

use backbone::Backbone;
use backbone::cascade::CascadingEventHandler;
use backbone::comp::NodeComponent;
use backbone::cstore::CStoreEventHandler;
use backbone::node::{EmptyEventHandler, NamedNodeHandlerBox, NodeHandler};

/// A component carrying its own key and a payload.
struct KeyedComp {
    key: u64,
    val: i64,
}

impl KeyedComp {
    fn new(key: u64, val: i64) -> Self {
        KeyedComp { key, val }
    }
}

impl NodeComponent for KeyedComp {
    fn get_component_type_id(&self) -> u64 {
        self.key
    }

    fn get_component_name(&self) -> &str {
        "KeyedComp"
    }
}

type Store = CStoreEventHandler<KeyedComp>;

fn get(s: &Store, k: u64) -> Option<&KeyedComp> {
    <Store as NodeHandler<Store>>::get_comp(s, k)
}

fn get_mut(s: &Store, k: u64) -> Option<&RefCell<KeyedComp>> {
    <Store as NodeHandler<Store>>::get_comp_mut(s, k)
}

fn get_arc(s: &Store, k: u64) -> Option<Arc<KeyedComp>> {
    <Store as NodeHandler<Store>>::get_comp_arc(s, k)
}

#[test]
fn insert_box_stores_and_replaces() {
    let mut s = Store::new();
    assert!(get(&s, 1).is_none());
    assert!(s.insert_box(KeyedComp::new(1, 10)));
    assert_eq!(get(&s, 1).unwrap().val, 10);
    // Same key again: replaced, and the key is no longer new.
    assert!(!s.insert_box(KeyedComp::new(1, 11)));
    assert_eq!(get(&s, 1).unwrap().val, 11);
    assert!(s.insert_box(KeyedComp::new(2, 20)));
    assert_eq!(get(&s, 2).unwrap().val, 20);
    assert!(get(&s, 3).is_none());
}

#[test]
fn insert_cell_offers_runtime_checked_mutability() {
    let mut s = Store::new();
    assert!(s.insert_cell(KeyedComp::new(5, 50)));
    assert!(!s.insert_cell(KeyedComp::new(5, 51)));
    let cell = get_mut(&s, 5).unwrap();
    cell.borrow_mut().val += 1;
    assert_eq!(cell.borrow().val, 52);
    // One mutable borrow at a time: a second is refused, not fatal.
    let held = cell.borrow_mut();
    assert!(cell.try_borrow_mut().is_err());
    drop(held);
    assert!(cell.try_borrow_mut().is_ok());
    assert!(get_mut(&s, 6).is_none());
}

#[test]
fn insert_arc_shares_the_component() {
    let mut s = Store::new();
    assert!(s.insert_arc(Arc::new(KeyedComp::new(7, 70))));
    let a = get_arc(&s, 7).unwrap();
    let b = get_arc(&s, 7).unwrap();
    assert_eq!(a.val, 70);
    assert!(Arc::ptr_eq(&a, &b));
    assert!(get_arc(&s, 8).is_none());
}

#[test]
fn tiers_do_not_alias_each_other() {
    let mut s = Store::new();
    s.insert_box(KeyedComp::new(1, 10));
    assert!(get_mut(&s, 1).is_none());
    assert!(get_arc(&s, 1).is_none());
}

#[test]
fn with_merges_preferring_the_other_store() {
    let mut a = Store::new();
    a.insert_box(KeyedComp::new(1, 10));
    a.insert_box(KeyedComp::new(2, 20));
    let mut b = Store::new();
    b.insert_box(KeyedComp::new(2, 200));
    b.insert_box(KeyedComp::new(3, 300));
    a.with(b);
    assert_eq!(get(&a, 1).unwrap().val, 10);
    assert_eq!(get(&a, 2).unwrap().val, 200);
    assert_eq!(get(&a, 3).unwrap().val, 300);
}

#[test]
fn cascade_resolves_components_inner_first() {
    let mut outer_store = Store::new();
    outer_store.insert_box(KeyedComp::new(1, 1));
    outer_store.insert_box(KeyedComp::new(2, 2));
    let mut inner_store = Store::new();
    inner_store.insert_box(KeyedComp::new(2, 22));
    let casc = CascadingEventHandler {
        outer: NamedNodeHandlerBox { name: "/".to_string(), node: outer_store },
        inner: NamedNodeHandlerBox { name: "/".to_string(), node: inner_store },
    };
    type C = CascadingEventHandler<Store, Store>;
    // Only the outer store holds key 1.
    assert_eq!(<C as NodeHandler<EmptyEventHandler>>::get_comp(&casc, 1).unwrap().val, 1);
    // Both hold key 2: the inner store shadows the outer.
    assert_eq!(<C as NodeHandler<EmptyEventHandler>>::get_comp(&casc, 2).unwrap().val, 22);
    assert!(<C as NodeHandler<EmptyEventHandler>>::get_comp(&casc, 3).is_none());
}

#[test]
fn cascade_wraps_the_root() {
    let bb = Backbone::from_obj(EmptyEventHandler);
    let bb = bb.cascade(EmptyEventHandler);
    assert_eq!(bb.path_as_string(), "/");
    assert!(bb.is_idle());
}

#[test]
fn component_name_and_type_check() {
    let c = KeyedComp::new(9, 0);
    assert_eq!(c.get_component_type_id(), 9);
    assert!(c.is_of_type(9));
    assert!(!c.is_of_type(10));
    assert_eq!(c.get_component_name(), "KeyedComp");
}

#[test]
fn backbone_component_lookup_scans_the_stack() {
    let mut store = Store::new();
    store.insert_box(KeyedComp::new(4, 40));
    let bb = Backbone::from_obj(store);
    assert_eq!(bb.get_component(4).unwrap().val, 40);
    assert!(bb.get_component(5).is_none());
    assert!(bb.get_component_mut(4).is_none());
    assert!(bb.get_component_arc(4).is_none());
}
