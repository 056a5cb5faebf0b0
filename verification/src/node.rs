//! The data model of the project tree.
//!
//! A [`RawEntry`] is one filesystem entry as the caller observed it: its
//! base name, whether it is a directory, and — for a directory the caller
//! listed — the raw, unordered listing (`None` stands for a listing that
//! could not be read).  A [`FileNode`] is one entry as the tree builder
//! surfaces it to the UI: named, classified, carrying a root-relative
//! virtual path, and with ordered children for directories.
//!
//! `NodeSeq` and `RawSeq` are the mathematical images of those types:
//! the same shapes over `Seq<char>` and `Seq`, which all contracts and
//! laws speak of.

use vstd::prelude::*;

use crate::order::str_eq;

verus! {

/// One filesystem entry as observed by the caller, before any ordering
/// or filtering.
pub struct RawEntry {
    /// The entry's base name.
    pub name: String,
    /// Whether the entry is a directory, as the filesystem metadata said.
    pub is_directory: bool,
    /// For a directory the caller descended into, its raw listing;
    /// `None` when the listing could not be read.  Ignored for files.
    pub listing: Option<Vec<RawEntry>>,
}

/// One entry of the finished tree.
pub struct FileNode {
    /// The entry's base name.
    pub name: String,
    /// Root-relative virtual path: `/`-separated and prefixed with `/`.
    pub path: String,
    /// Whether the entry is a directory.
    pub is_directory: bool,
    /// `Some` (possibly empty) for every directory, `None` for every file.
    pub children: Option<Vec<FileNode>>,
}

/// Mathematical image of a `RawEntry`.
pub struct RawView {
    pub name: Seq<char>,
    pub is_directory: bool,
    pub listing: Option<Seq<RawView>>,
}

/// Mathematical image of a `FileNode`.
pub struct NodeView {
    pub name: Seq<char>,
    pub path: Seq<char>,
    pub is_directory: bool,
    pub children: Option<Seq<NodeView>>,
}

/// The image of one `RawEntry`.
pub open spec fn raw_view(e: RawEntry) -> RawView
    decreases e,
{
    RawView {
        name: e.name@,
        is_directory: e.is_directory,
        listing: match e.listing {
            Option::None => Option::None,
            Option::Some(l) => Option::Some(raws_view(l@)),
        },
    }
}

/// The image of a sequence of `RawEntry`s, element by element.
pub open spec fn raws_view(s: Seq<RawEntry>) -> Seq<RawView>
    decreases s,
{
    if s.len() == 0 {
        Seq::empty()
    } else {
        raws_view(s.drop_last()).push(raw_view(s.last()))
    }
}

/// The image of one `FileNode`.
pub open spec fn node_view(n: FileNode) -> NodeView
    decreases n,
{
    NodeView {
        name: n.name@,
        path: n.path@,
        is_directory: n.is_directory,
        children: match n.children {
            Option::None => Option::None,
            Option::Some(c) => Option::Some(nodes_view(c@)),
        },
    }
}

/// The image of a sequence of `FileNode`s, element by element.
pub open spec fn nodes_view(s: Seq<FileNode>) -> Seq<NodeView>
    decreases s,
{
    if s.len() == 0 {
        Seq::empty()
    } else {
        nodes_view(s.drop_last()).push(node_view(s.last()))
    }
}

/// `raws_view` maps `raw_view` over the sequence, index by index.
pub proof fn lemma_raws_view_elts(s: Seq<RawEntry>)
    ensures
        raws_view(s).len() == s.len(),
        forall|i: int| 0 <= i < s.len() ==> raws_view(s)[i] == raw_view(s[i]),
    decreases s.len(),
{
    if s.len() > 0 {
        lemma_raws_view_elts(s.drop_last());
    }
}

/// `nodes_view` maps `node_view` over the sequence, index by index.
pub proof fn lemma_nodes_view_elts(s: Seq<FileNode>)
    ensures
        nodes_view(s).len() == s.len(),
        forall|i: int| 0 <= i < s.len() ==> nodes_view(s)[i] == node_view(s[i]),
    decreases s.len(),
{
    if s.len() > 0 {
        lemma_nodes_view_elts(s.drop_last());
    }
}

/// The fixed set of conventional artifact and dependency directory
/// names that the walk never descends into: version-control metadata,
/// dependency caches, build output and editor state.
pub open spec fn is_ignored_name(name: Seq<char>) -> bool {
    ||| name == "node_modules"@
    ||| name == ".git"@
    ||| name == "target"@
    ||| name == "dist"@
    ||| name == "build"@
    ||| name == ".maker"@
    ||| name == "__pycache__"@
    ||| name == "venv"@
    ||| name == ".vscode"@
}

/// Decides whether a directory name belongs to the fixed ignore set.
/// The test is exact name equality, not a glob or gitignore match.
pub fn is_ignored(name: &str) -> (r: bool)
    ensures
        r == is_ignored_name(name@),
{
    str_eq(name, "node_modules") || str_eq(name, ".git") || str_eq(name, "target") || str_eq(
        name,
        "dist",
    ) || str_eq(name, "build") || str_eq(name, ".maker") || str_eq(name, "__pycache__") || str_eq(
        name,
        "venv",
    ) || str_eq(name, ".vscode")
}

} // verus!
