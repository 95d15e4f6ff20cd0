//! An in-process runtime for hierarchical, path-addressable stateful nodes
//! that dispatch events through a capture/act/bubble protocol and that can be
//! navigated asynchronously at runtime, one step per scheduler tick.

pub mod backbone;
pub mod cascade;
pub mod comp;
pub mod cstore;
pub mod ctx;
pub mod event;
pub mod laws;
pub mod node;
pub mod pending;
pub mod thunk;

pub use backbone::Backbone;
