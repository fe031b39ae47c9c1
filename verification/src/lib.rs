//! Editing of a hierarchical scene graph: handles, the node arena, the
//! selection model, reversible commands, and the data provider that a
//! hierarchy view drives.

pub mod command;
pub mod graph;
pub mod handle;
pub mod hierarchy;
pub mod icon;
pub mod instancing;
pub mod model;
pub mod node;
pub mod provider;
pub mod range;
pub mod relink;
pub mod reparent;
pub mod selection;
pub mod subgraph;
pub mod subtree;
pub mod undo;
pub mod validation;
