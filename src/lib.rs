//! Tags the root markup of UI components with an attribute naming the
//! component that produced it, so that UI tests can select markup by the
//! component it came from.
//!
//! - [`tree`]: the syntax the pass reads, and its mathematical value.
//! - [`naming`]: the naming conventions that make a declaration a component.
//! - [`rules`]: what the pass does, stated over values of nodes.
//! - [`visitor`]: the pass itself, proved to do what [`rules`] states.
//! - [`laws`]: properties of the pass, proved from [`rules`].
pub mod laws;
pub mod naming;
pub mod rules;
pub mod tree;
pub mod visitor;

pub use tree::{Attribute, Node};
pub use visitor::TransformVisitor;
