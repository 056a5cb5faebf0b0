//! Core of a code-editor backend: it turns a snapshot of a directory's
//! contents into the ordered, filtered tree of nodes that a file explorer
//! displays.  Directories sort before files, names sort in ascending
//! ordinal order, conventional artifact directories are shown but never
//! descended into, and every node carries a root-relative virtual path.

pub mod laws;
pub mod node;
pub mod order;
pub mod sort;
pub mod tree;

pub use node::FileNode;
pub use node::RawEntry;
pub use node::is_ignored;
pub use order::str_eq;
pub use order::str_le;
pub use sort::sort_nodes;
pub use tree::build_node;
pub use tree::build_tree;
