//! Reads a Windows registry hive into a typed tree of nodes.
//!
//! The hive file itself is parsed by an engine outside this library. The
//! library never calls it. It is handed what the engine reported, one
//! record at a time, and decides what that means:
//!
//! * [`hive::Hive`] walks the tree. It names the node to ask the engine
//!   about next and, given the node's record, answers with the node read in
//!   full. Every node that child links reach from the root is visited
//!   exactly once; where the engine fails to list the children of a node,
//!   the visit of that node answers with the failure.
//! * [`node::Node`] is a node read in full: its name, its path from the
//!   root, when it was last modified, and its values.
//! * [`value::Value`] is a value with its payload, decoded by its type.
//! * [`sys`] holds the record of a session and the handles that read their
//!   attributes from it.
//! * [`multi_sz`] counts the texts of a multi-string value.
//! * [`timestamp`] turns the registry's tick counts into calendar time.
//! * [`error`] holds the errors.
pub mod error;
pub mod hive;
pub mod multi_sz;
pub mod node;
pub mod sys;
pub mod text;
pub mod timestamp;
pub mod value;

pub use crate::timestamp::epoch_to_timestamp;
