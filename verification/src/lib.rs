//! A lossless, immutable syntax-tree engine.
//!
//! The core is a dual-tree architecture. The *green* tree is an immutable,
//! position-free value tree describing token kinds and text, shared by
//! reference counting and deduplicated through an interning cache. The *red*
//! tree is an ephemeral navigation view computed on top of it, carrying parent
//! links and absolute text offsets. All updates are pure: `replace_child`
//! produces a new root by path copying and leaves every existing tree intact.

pub mod ast;
pub mod builder;
pub mod cache;
pub mod green;
pub mod kinds;
pub mod model;
pub mod red;

pub use crate::ast::{
    child_of_type, make_field_name, make_name, make_node, make_struct, make_token,
    make_whitespace, AstNode, Field, Name, Struct,
};
pub use crate::builder::{Checkpoint, GreenNodeBuilder};
pub use crate::cache::NodeCache;
pub use crate::green::{
    GreenElement, GreenElementRef, GreenNode, GreenNodeData, GreenToken, GreenTokenData,
    SyntaxKind, TreeError,
};
pub use crate::red::{RedElement, RedNode, RedNodeData, RedToken, RedTokenData};
