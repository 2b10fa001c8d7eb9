//! Inspection logic of the pdbg PDF debugger: content-stream formatting, the
//! object tree, stream views, search labels and the small state machines that
//! the viewer drives.
use vstd::prelude::*;

pub mod about;
pub mod cache;
pub mod chunks;
pub mod content;
pub mod fragments;
pub mod history;
pub mod labels;
pub mod model;
pub mod nice;
pub mod recent;
pub mod node;
pub mod paths;
pub mod render;
pub mod shell;
pub mod spans;
pub mod stream;
pub mod text;
pub mod tree;

verus! {

} // verus!
