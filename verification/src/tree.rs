//! The tree builder.
//!
//! Given the observed entries of a directory and the virtual path of
//! that directory, it produces the ordered, filtered level of the tree:
//! every entry becomes a node whose path extends the prefix with `/` and
//! the entry's name; a directory's children are built the same way from
//! its own listing, except that ignored directories and unreadable
//! listings yield an empty children sequence; and each level is put into
//! two-key order.  `spec_children` states the result exactly, and the
//! executable builder is proved to return precisely it.

use vstd::prelude::*;

use crate::node::FileNode;
use crate::node::NodeView;
use crate::node::RawEntry;
use crate::node::RawView;
use crate::node::is_ignored;
use crate::node::is_ignored_name;
use crate::node::lemma_nodes_view_elts;
use crate::node::lemma_raws_view_elts;
use crate::node::node_view;
use crate::node::nodes_view;
use crate::node::raw_view;
use crate::node::raws_view;
use crate::sort::sort_nodes;
use crate::sort::sort_spec;

verus! {

/// The virtual path of an entry: its parent's virtual path, a `/`, and
/// the entry's name.  The walk's root has the empty sequence as its
/// path, so every path begins with `/`.
pub open spec fn child_path(prefix: Seq<char>, name: Seq<char>) -> Seq<char> {
    prefix + seq!['/'] + name
}

/// The node an entry becomes when its directory's virtual path is
/// `prefix`.  A file never has children; a directory always does:
/// empty when its name is on the ignore list or its listing could not
/// be read, and otherwise the built level of its listing.
pub open spec fn spec_node(e: RawView, prefix: Seq<char>) -> NodeView
    decreases e, 1int,
{
    NodeView {
        name: e.name,
        path: child_path(prefix, e.name),
        is_directory: e.is_directory,
        children: if !e.is_directory {
            Option::None
        } else if is_ignored_name(e.name) {
            Option::Some(Seq::empty())
        } else {
            match e.listing {
                Option::None => Option::Some(Seq::empty()),
                Option::Some(l) => Option::Some(spec_children(l, child_path(prefix, e.name))),
            }
        },
    }
}

/// Each entry's node, in the order the entries were observed.
pub open spec fn spec_map(entries: Seq<RawView>, prefix: Seq<char>) -> Seq<NodeView>
    decreases entries, 0int,
{
    if entries.len() == 0 {
        Seq::empty()
    } else {
        seq![spec_node(entries[0], prefix)] + spec_map(entries.drop_first(), prefix)
    }
}

/// One level of the finished tree: every entry's node, in two-key order.
pub open spec fn spec_children(entries: Seq<RawView>, prefix: Seq<char>) -> Seq<NodeView>
    decreases entries, 1int,
{
    sort_spec(spec_map(entries, prefix))
}

/// `spec_map` maps `spec_node` over the entries, index by index.
pub proof fn lemma_spec_map_elts(entries: Seq<RawView>, prefix: Seq<char>)
    ensures
        spec_map(entries, prefix).len() == entries.len(),
        forall|i: int|
            0 <= i < entries.len() ==> spec_map(entries, prefix)[i] == spec_node(
                entries[i],
                prefix,
            ),
    decreases entries.len(),
{
    if entries.len() > 0 {
        lemma_spec_map_elts(entries.drop_first(), prefix);
        assert(forall|i: int|
            1 <= i < entries.len() ==> spec_map(entries, prefix)[i] == spec_map(
                entries.drop_first(),
                prefix,
            )[i - 1]);
    }
}

/// Builds the node of one observed entry, given its directory's virtual
/// path.
pub fn build_node(e: &RawEntry, prefix: &str) -> (n: FileNode)
    ensures
        node_view(n) == spec_node(raw_view(*e), prefix@),
    decreases *e, 1int,
{
    let name: String = e.name.clone();
    let path: String = String::from_str(prefix).concat("/").concat(name.as_str());
    proof {
        reveal_strlit("/");
        assert("/"@ =~= seq!['/']);
        assert(path@ == child_path(prefix@, e.name@));
    }
    let children: Option<Vec<FileNode>> = if !e.is_directory {
        Option::None
    } else if is_ignored(name.as_str()) {
        Option::Some(Vec::new())
    } else {
        match &e.listing {
            Option::None => Option::Some(Vec::new()),
            Option::Some(l) => Option::Some(build_tree(l, path.as_str())),
        }
    };
    let n = FileNode { name, path, is_directory: e.is_directory, children };
    proof {
        if n.children is Some {
            assert(nodes_view(Seq::<FileNode>::empty()) =~= Seq::<NodeView>::empty());
        }
    }
    n
}

/// Builds one level of the tree from a directory's observed entries and
/// that directory's virtual path; the walk's root uses the empty prefix.
pub fn build_tree(entries: &Vec<RawEntry>, prefix: &str) -> (nodes: Vec<FileNode>)
    ensures
        nodes_view(nodes@) == spec_children(raws_view(entries@), prefix@),
    decreases *entries, 0int,
{
    let ghost rv = raws_view(entries@);
    proof {
        lemma_raws_view_elts(entries@);
        lemma_spec_map_elts(rv, prefix@);
    }
    let mut out: Vec<FileNode> = Vec::new();
    let n: usize = entries.len();
    proof {
        assert(nodes_view(out@) =~= spec_map(rv, prefix@).take(0));
    }
    let mut i: usize = 0;
    while i < n
        invariant
            i <= n,
            n == entries@.len(),
            rv == raws_view(entries@),
            rv.len() == n,
            forall|k: int| 0 <= k < n ==> rv[k] == raw_view(entries@[k]),
            spec_map(rv, prefix@).len() == n,
            forall|k: int| 0 <= k < n ==> spec_map(rv, prefix@)[k] == spec_node(rv[k], prefix@),
            out@.len() == i,
            nodes_view(out@) == spec_map(rv, prefix@).take(i as int),
        decreases n - i,
    {
        let ghost out0 = out@;
        let node = build_node(&entries[i], prefix);
        out.push(node);
        proof {
            assert(out@.drop_last() =~= out0);
            assert(out@.last() == node);
            assert(nodes_view(out@) == nodes_view(out0).push(node_view(node)));
            assert(nodes_view(out@) =~= spec_map(rv, prefix@).take(i + 1));
        }
        i = i + 1;
    }
    proof {
        assert(spec_map(rv, prefix@).take(n as int) =~= spec_map(rv, prefix@));
    }
    sort_nodes(out)
}

} // verus!
