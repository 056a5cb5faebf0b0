//! The guarantees of the tree builder, stated and proved once and for
//! all over `spec_children`, which the executable builder is proved to
//! return exactly.

use vstd::prelude::*;

use crate::node::NodeView;
use crate::node::RawView;
use crate::node::is_ignored_name;
use crate::order::lex_le;
use crate::sort::lemma_sort_spec_multiset;
use crate::sort::lemma_sort_spec_sorted;
use crate::sort::node_le;
use crate::sort::sorted_nodes;
use crate::tree::child_path;
use crate::tree::lemma_spec_map_elts;
use crate::tree::spec_node;
use crate::tree::spec_children;
use crate::tree::spec_map;

verus! {

/// One level lists every observed entry exactly once — directories
/// first, then files, and within a kind names in ascending ordinal
/// order.  Each entry's node depends on that entry alone, so an
/// unreadable or ignored sibling never disturbs the others.
pub proof fn lemma_level_order(entries: Seq<RawView>, prefix: Seq<char>)
    ensures
        spec_children(entries, prefix).len() == entries.len(),
        spec_children(entries, prefix).to_multiset() == spec_map(entries, prefix).to_multiset(),
        forall|k: int|
            0 <= k < entries.len() ==> spec_map(entries, prefix)[k] == spec_node(
                entries[k],
                prefix,
            ),
        sorted_nodes(spec_children(entries, prefix)),
        forall|i: int, j: int|
            0 <= i < j < entries.len() && spec_children(entries, prefix)[j].is_directory
                ==> spec_children(entries, prefix)[i].is_directory,
        forall|i: int, j: int|
            0 <= i < j < entries.len() && spec_children(entries, prefix)[i].is_directory
                == spec_children(entries, prefix)[j].is_directory ==> lex_le(
                spec_children(entries, prefix)[i].name,
                spec_children(entries, prefix)[j].name,
            ),
{
    lemma_spec_map_elts(entries, prefix);
    lemma_sort_spec_sorted(spec_map(entries, prefix));
    lemma_sort_spec_multiset(spec_map(entries, prefix));
    let s = spec_children(entries, prefix);
    assert forall|i: int, j: int|
        0 <= i < j < entries.len() && s[j].is_directory implies s[i].is_directory by {
        assert(node_le(s[i], s[j]));
    }
    assert forall|i: int, j: int|
        0 <= i < j < entries.len() && s[i].is_directory == s[j].is_directory implies lex_le(
        s[i].name,
        s[j].name,
    ) by {
        assert(node_le(s[i], s[j]));
    }
}

/// Every level of the finished tree, however deep, is in two-key order.
pub open spec fn tree_ordered(n: NodeView) -> bool
    decreases n,
{
    match n.children {
        Option::None => true,
        Option::Some(cs) => sorted_nodes(cs) && (forall|i: int|
            0 <= i < cs.len() ==> tree_ordered(#[trigger] cs[i])),
    }
}

/// The ordering invariant holds at every nesting level independently:
/// each node of a built level is `tree_ordered`, and the level itself
/// is sorted.
pub proof fn lemma_tree_ordered(entries: Seq<RawView>, prefix: Seq<char>)
    ensures
        sorted_nodes(spec_children(entries, prefix)),
        forall|i: int|
            0 <= i < spec_children(entries, prefix).len() ==> tree_ordered(
                #[trigger] spec_children(entries, prefix)[i],
            ),
    decreases entries,
{
    broadcast use vstd::seq_lib::group_to_multiset_ensures;

    lemma_spec_map_elts(entries, prefix);
    lemma_sort_spec_sorted(spec_map(entries, prefix));
    lemma_sort_spec_multiset(spec_map(entries, prefix));
    let m = spec_map(entries, prefix);
    let s = spec_children(entries, prefix);
    assert forall|i: int| 0 <= i < s.len() implies tree_ordered(#[trigger] s[i]) by {
        assert(s.contains(s[i]));
        assert(s.to_multiset().count(s[i]) > 0);
        assert(m.to_multiset().count(s[i]) > 0);
        assert(m.contains(s[i]));
        let k = choose|k: int| 0 <= k < m.len() && m[k] == s[i];
        let e = entries[k];
        assert(s[i] == spec_node(e, prefix));
        if e.is_directory && !is_ignored_name(e.name) && e.listing is Some {
            let l = e.listing->Some_0;
            lemma_tree_ordered(l, child_path(prefix, e.name));
        } else {
            if s[i].children is Some {
                assert(s[i].children->Some_0 =~= Seq::<NodeView>::empty());
            }
        }
    }
}

/// Every path in the tree extends its parent's path by `/` and the
/// node's own name; so each path is relative to the walk's original
/// root, not to the immediate parent alone.
pub open spec fn paths_rooted(n: NodeView, prefix: Seq<char>) -> bool
    decreases n,
{
    &&& n.path == child_path(prefix, n.name)
    &&& match n.children {
        Option::None => true,
        Option::Some(cs) => forall|i: int|
            0 <= i < cs.len() ==> paths_rooted(#[trigger] cs[i], n.path),
    }
}

/// Every node of a built level, at every depth, has the rooted path.
pub proof fn lemma_paths_rooted(entries: Seq<RawView>, prefix: Seq<char>)
    ensures
        forall|i: int|
            0 <= i < spec_children(entries, prefix).len() ==> paths_rooted(
                #[trigger] spec_children(entries, prefix)[i],
                prefix,
            ),
    decreases entries,
{
    broadcast use vstd::seq_lib::group_to_multiset_ensures;

    lemma_spec_map_elts(entries, prefix);
    lemma_sort_spec_multiset(spec_map(entries, prefix));
    let m = spec_map(entries, prefix);
    let s = spec_children(entries, prefix);
    assert forall|i: int| 0 <= i < s.len() implies paths_rooted(#[trigger] s[i], prefix) by {
        assert(s.contains(s[i]));
        assert(s.to_multiset().count(s[i]) > 0);
        assert(m.to_multiset().count(s[i]) > 0);
        assert(m.contains(s[i]));
        let k = choose|k: int| 0 <= k < m.len() && m[k] == s[i];
        let e = entries[k];
        assert(s[i] == spec_node(e, prefix));
        if e.is_directory && !is_ignored_name(e.name) && e.listing is Some {
            let l = e.listing->Some_0;
            let cp = child_path(prefix, e.name);
            lemma_paths_rooted(l, cp);
            let cs = spec_children(l, cp);
            assert(s[i].children == Option::Some(cs));
            assert(s[i].path == cp);
            assert(forall|m: int| 0 <= m < cs.len() ==> paths_rooted(#[trigger] cs[m], s[i].path));
            assert(paths_rooted(s[i], prefix));
        } else {
            assert(s[i].path == child_path(prefix, s[i].name));
            if s[i].children is Some {
                assert(s[i].children->Some_0 =~= Seq::<NodeView>::empty());
            }
            assert(paths_rooted(s[i], prefix));
        }
    }
}

/// Every path in the tree begins with `/`.
pub open spec fn all_paths_slash(n: NodeView) -> bool
    decreases n,
{
    &&& n.path.len() > 0
    &&& n.path[0] == '/'
    &&& match n.children {
        Option::None => true,
        Option::Some(cs) => forall|i: int|
            0 <= i < cs.len() ==> all_paths_slash(#[trigger] cs[i]),
    }
}

/// A tree whose paths are rooted in a prefix that is empty (the walk's
/// root) or itself begins with `/` has every path beginning with `/`.
pub proof fn lemma_paths_start_with_slash(n: NodeView, prefix: Seq<char>)
    requires
        paths_rooted(n, prefix),
        prefix.len() == 0 || prefix[0] == '/',
    ensures
        all_paths_slash(n),
    decreases n,
{
    assert(n.path == prefix + seq!['/'] + n.name);
    assert(n.path.len() > 0);
    if prefix.len() == 0 {
        assert(n.path[0] == '/');
    } else {
        assert(n.path[0] == prefix[0]);
    }
    match n.children {
        Option::None => {},
        Option::Some(cs) => {
            assert forall|i: int| 0 <= i < cs.len() implies all_paths_slash(#[trigger] cs[i]) by {
                lemma_paths_start_with_slash(cs[i], n.path);
            }
        },
    }
}

/// At the walk's root — where the prefix is empty — every node of the
/// built tree, at every depth, carries a path that begins with `/` and
/// extends its parent's path by `/` and the node's own name: the
/// root-relative virtual path.
pub proof fn lemma_root_paths(entries: Seq<RawView>)
    ensures
        forall|i: int|
            0 <= i < spec_children(entries, Seq::empty()).len() ==> paths_rooted(
                #[trigger] spec_children(entries, Seq::empty())[i],
                Seq::empty(),
            ),
        forall|i: int|
            0 <= i < spec_children(entries, Seq::empty()).len() ==> all_paths_slash(
                #[trigger] spec_children(entries, Seq::empty())[i],
            ),
{
    lemma_paths_rooted(entries, Seq::empty());
    let s = spec_children(entries, Seq::empty());
    assert forall|i: int| 0 <= i < s.len() implies all_paths_slash(#[trigger] s[i]) by {
        lemma_paths_start_with_slash(s[i], Seq::empty());
    }
}

/// A directory whose name is on the ignore list always surfaces with an
/// empty children sequence, whatever its listing held — observed,
/// unreadable, nested ignored directories or ordinary files alike — so
/// it is never descended into.
pub proof fn lemma_ignored_dir_sealed(e: RawView, prefix: Seq<char>)
    requires
        e.is_directory,
        is_ignored_name(e.name),
    ensures
        spec_node(e, prefix).children == Option::Some(Seq::<NodeView>::empty()),
{
}

/// A directory not on the ignore list always has a present children
/// sequence: its built listing when readable, empty when not.
pub proof fn lemma_dir_children_present(e: RawView, prefix: Seq<char>)
    requires
        e.is_directory,
        !is_ignored_name(e.name),
    ensures
        spec_node(e, prefix).children is Some,
        e.listing is Some ==> spec_node(e, prefix).children == Option::Some(
            spec_children(e.listing->Some_0, child_path(prefix, e.name)),
        ),
        e.listing is None ==> spec_node(e, prefix).children == Option::Some(
            Seq::<NodeView>::empty(),
        ),
{
}

/// A file never has a children sequence.
pub proof fn lemma_file_no_children(e: RawView, prefix: Seq<char>)
    requires
        !e.is_directory,
    ensures
        spec_node(e, prefix).children is None,
{
}

} // verus!
