//! The two-key ordering of tree nodes and a verified insertion sort.
//!
//! Directories come before files; within the same kind, names are in
//! ascending ordinal order.  The sort is specified as the fold of a
//! sorted insert over the input, which the executable sort mirrors step
//! by step, so its result is pinned down exactly.

use vstd::prelude::*;
use vstd::multiset::Multiset;
use vstd::seq_lib::lemma_multiset_commutative;

use crate::node::FileNode;
use crate::node::NodeView;
use crate::node::lemma_nodes_view_elts;
use crate::node::node_view;
use crate::node::nodes_view;
use crate::order::lemma_lex_le_total;
use crate::order::lemma_lex_le_trans;
use crate::order::lex_le;
use crate::order::str_le;

verus! {

/// The two-key "less or equal" on nodes: a directory sorts before a
/// file; two entries of the same kind sort by name.
pub open spec fn node_le(a: NodeView, b: NodeView) -> bool {
    if a.is_directory != b.is_directory {
        a.is_directory
    } else {
        lex_le(a.name, b.name)
    }
}

/// A sequence of nodes in two-key order.
pub open spec fn sorted_nodes(s: Seq<NodeView>) -> bool {
    forall|i: int, j: int| 0 <= i < j < s.len() ==> node_le(s[i], s[j])
}

/// `node_le` is total.
pub proof fn lemma_node_le_total(a: NodeView, b: NodeView)
    ensures
        node_le(a, b) || node_le(b, a),
{
    if a.is_directory == b.is_directory {
        lemma_lex_le_total(a.name, b.name);
    }
}

/// `node_le` is transitive.
pub proof fn lemma_node_le_trans(a: NodeView, b: NodeView, c: NodeView)
    requires
        node_le(a, b),
        node_le(b, c),
    ensures
        node_le(a, c),
{
    if a.is_directory == b.is_directory && b.is_directory == c.is_directory {
        lemma_lex_le_trans(a.name, b.name, c.name);
    }
}

/// Inserts `x` into `s` behind every element that is `node_le` to it.
pub open spec fn insert_le(s: Seq<NodeView>, x: NodeView) -> Seq<NodeView>
    decreases s.len(),
{
    if s.len() == 0 {
        seq![x]
    } else if node_le(s[0], x) {
        seq![s[0]] + insert_le(s.drop_first(), x)
    } else {
        seq![x] + s
    }
}

/// The nodes of a level in their displayed order: each node of `s`
/// inserted in turn, front to back.
pub open spec fn sort_spec(s: Seq<NodeView>) -> Seq<NodeView>
    decreases s.len(),
{
    if s.len() == 0 {
        Seq::empty()
    } else {
        insert_le(sort_spec(s.drop_last()), s.last())
    }
}

/// Where the scan of a sorted insert stops, the insert splits the
/// sequence there.
pub proof fn lemma_insert_le_at(s: Seq<NodeView>, x: NodeView, j: int)
    requires
        0 <= j <= s.len(),
        forall|k: int| 0 <= k < j ==> node_le(s[k], x),
        j < s.len() ==> !node_le(s[j], x),
    ensures
        insert_le(s, x) == s.take(j) + seq![x] + s.skip(j),
    decreases j,
{
    if j == 0 {
        assert(insert_le(s, x) =~= s.take(0) + seq![x] + s.skip(0));
    } else {
        assert(node_le(s[0], x));
        let s1 = s.drop_first();
        assert(forall|k: int| 0 <= k < j - 1 ==> s1[k] == s[k + 1] && node_le(s1[k], x));
        lemma_insert_le_at(s1, x, j - 1);
        assert(insert_le(s, x) =~= s.take(j) + seq![x] + s.skip(j)) by {
            assert(insert_le(s, x) == seq![s[0]] + (s1.take(j - 1) + seq![x] + s1.skip(j - 1)));
        }
    }
}

/// A sorted insert adds exactly `x` to the sequence's contents.
pub proof fn lemma_insert_le_multiset(s: Seq<NodeView>, x: NodeView)
    ensures
        insert_le(s, x).to_multiset() == s.to_multiset().insert(x),
        insert_le(s, x).len() == s.len() + 1,
    decreases s.len(),
{
    broadcast use vstd::seq_lib::group_to_multiset_ensures;

    if s.len() == 0 {
        assert(seq![x] =~= Seq::<NodeView>::empty().push(x));
        assert(s.to_multiset() =~= Multiset::<NodeView>::empty());
        assert(insert_le(s, x).to_multiset() =~= s.to_multiset().insert(x));
    } else if node_le(s[0], x) {
        let s1 = s.drop_first();
        lemma_insert_le_multiset(s1, x);
        lemma_multiset_commutative(seq![s[0]], insert_le(s1, x));
        lemma_multiset_commutative(seq![s[0]], s1);
        assert(s =~= seq![s[0]] + s1);
        assert(seq![s[0]] =~= Seq::<NodeView>::empty().push(s[0]));
        assert(insert_le(s, x).to_multiset() =~= s.to_multiset().insert(x));
    } else {
        lemma_multiset_commutative(seq![x], s);
        assert(seq![x] =~= Seq::<NodeView>::empty().push(x));
        assert(insert_le(s, x).to_multiset() =~= s.to_multiset().insert(x));
    }
}

/// A sorted insert into a sorted sequence stays sorted.
pub proof fn lemma_insert_le_sorted(s: Seq<NodeView>, x: NodeView)
    requires
        sorted_nodes(s),
    ensures
        sorted_nodes(insert_le(s, x)),
    decreases s.len(),
{
    broadcast use vstd::seq_lib::group_to_multiset_ensures;

    if s.len() == 0 {
    } else if node_le(s[0], x) {
        let s1 = s.drop_first();
        assert(forall|i: int, j: int|
            0 <= i < j < s1.len() ==> s1[i] == s[i + 1] && s1[j] == s[j + 1]);
        lemma_insert_le_sorted(s1, x);
        lemma_insert_le_multiset(s1, x);
        let r1 = insert_le(s1, x);
        let r = insert_le(s, x);
        assert(r == seq![s[0]] + r1);
        assert forall|m: int| 0 <= m < r1.len() implies node_le(s[0], r1[m]) by {
            assert(r1.contains(r1[m]));
            assert(r1.to_multiset().count(r1[m]) > 0);
            if r1[m] == x {
            } else {
                assert(s1.to_multiset().count(r1[m]) > 0);
                assert(s1.contains(r1[m]));
                let k = choose|k: int| 0 <= k < s1.len() && s1[k] == r1[m];
                assert(node_le(s[0], s[k + 1]));
            }
        }
        assert forall|i: int, j: int| 0 <= i < j < r.len() implies node_le(r[i], r[j]) by {
            if i == 0 {
                assert(r[j] == r1[j - 1]);
            } else {
                assert(r[i] == r1[i - 1] && r[j] == r1[j - 1]);
            }
        }
    } else {
        let r = insert_le(s, x);
        assert(r == seq![x] + s);
        lemma_node_le_total(s[0], x);
        assert(node_le(x, s[0]));
        assert forall|i: int, j: int| 0 <= i < j < r.len() implies node_le(r[i], r[j]) by {
            if i == 0 {
                assert(r[j] == s[j - 1]);
                if j - 1 > 0 {
                    assert(node_le(s[0], s[j - 1]));
                    lemma_node_le_trans(x, s[0], s[j - 1]);
                }
            } else {
                assert(r[i] == s[i - 1] && r[j] == s[j - 1]);
            }
        }
    }
}

/// The specified order of a level is sorted.
pub proof fn lemma_sort_spec_sorted(s: Seq<NodeView>)
    ensures
        sorted_nodes(sort_spec(s)),
    decreases s.len(),
{
    if s.len() > 0 {
        lemma_sort_spec_sorted(s.drop_last());
        lemma_insert_le_sorted(sort_spec(s.drop_last()), s.last());
    }
}

/// Sorting keeps exactly the nodes of the input: same contents, same
/// length — nothing is dropped, duplicated or invented.
pub proof fn lemma_sort_spec_multiset(s: Seq<NodeView>)
    ensures
        sort_spec(s).to_multiset() == s.to_multiset(),
        sort_spec(s).len() == s.len(),
    decreases s.len(),
{
    broadcast use vstd::seq_lib::group_to_multiset_ensures;

    if s.len() == 0 {
        assert(sort_spec(s).to_multiset() =~= s.to_multiset());
    } else {
        let s0 = s.drop_last();
        lemma_sort_spec_multiset(s0);
        lemma_insert_le_multiset(sort_spec(s0), s.last());
        assert(s =~= s0.push(s.last()));
        assert(sort_spec(s).to_multiset() =~= s.to_multiset());
    }
}

/// Decides `node_le` on two nodes.
pub fn node_le_exec(a: &FileNode, b: &FileNode) -> (r: bool)
    ensures
        r == node_le(node_view(*a), node_view(*b)),
{
    if a.is_directory != b.is_directory {
        a.is_directory
    } else {
        str_le(a.name.as_str(), b.name.as_str())
    }
}

/// Inserts `x` into `r` at the position the sorted insert specifies.
fn insert_node(r: &mut Vec<FileNode>, x: FileNode)
    ensures
        nodes_view(final(r)@) == insert_le(nodes_view(old(r)@), node_view(x)),
{
    let ghost r0 = r@;
    let ghost sv = nodes_view(r0);
    let ghost xv = node_view(x);
    proof {
        lemma_nodes_view_elts(r0);
    }
    let mut j: usize = 0;
    loop
        invariant
            j <= r.len(),
            r@ == r0,
            sv == nodes_view(r0),
            xv == node_view(x),
            sv.len() == r0.len(),
            forall|k: int| 0 <= k < r0.len() ==> sv[k] == node_view(r0[k]),
            forall|k: int| 0 <= k < j ==> node_le(sv[k], xv),
        ensures
            j <= r0.len(),
            r@ == r0,
            forall|k: int| 0 <= k < j ==> node_le(sv[k], xv),
            j == r0.len() || !node_le(sv[j as int], xv),
        decreases r0.len() - j,
    {
        if j == r.len() {
            break ;
        }
        if !node_le_exec(&r[j], &x) {
            break ;
        }
        j = j + 1;
    }
    r.insert(j, x);
    proof {
        lemma_insert_le_at(sv, xv, j as int);
        lemma_nodes_view_elts(r@);
        assert(r@ == r0.insert(j as int, x));
        assert forall|m: int| 0 <= m < r@.len() implies nodes_view(r@)[m] == (sv.take(j as int)
            + seq![xv] + sv.skip(j as int))[m] by {
            if m < j {
                assert(r@[m] == r0[m]);
            } else if m == j {
                assert(r@[m] == x);
            } else {
                assert(r@[m] == r0[m - 1]);
                assert((sv.take(j as int) + seq![xv] + sv.skip(j as int))[m] == sv[m - 1]);
            }
        }
        assert(nodes_view(r@) =~= insert_le(nodes_view(r0), xv));
    }
}

/// Puts a level of freshly built nodes into its displayed order.
pub fn sort_nodes(v: Vec<FileNode>) -> (r: Vec<FileNode>)
    ensures
        nodes_view(r@) == sort_spec(nodes_view(v@)),
{
    let ghost orig = v@;
    let mut src = v;
    let mut r: Vec<FileNode> = Vec::new();
    proof {
        assert(orig.take(0) =~= Seq::<FileNode>::empty());
        assert(orig.skip(0) =~= orig);
    }
    while src.len() > 0
        invariant
            src.len() <= orig.len(),
            src@ == orig.skip(orig.len() - src.len()),
            nodes_view(r@) == sort_spec(nodes_view(orig.take(orig.len() - src.len()))),
        decreases src.len(),
    {
        let ghost k = orig.len() - src.len();
        let x = src.remove(0);
        proof {
            assert(x == orig.skip(k)[0]);
            assert(x == orig[k]);
            assert(src@ =~= orig.skip(k + 1));
            lemma_nodes_view_elts(orig.take(k));
            lemma_nodes_view_elts(orig.take(k + 1));
            assert(nodes_view(orig.take(k + 1)).drop_last() =~= nodes_view(orig.take(k))) by {
                assert(forall|m: int|
                    0 <= m < k ==> orig.take(k + 1)[m] == orig[m] && orig.take(k)[m] == orig[m]);
            }
            assert(nodes_view(orig.take(k + 1)).last() == node_view(orig[k]));
        }
        insert_node(&mut r, x);
        proof {
            assert(sort_spec(nodes_view(orig.take(k + 1))) == insert_le(
                sort_spec(nodes_view(orig.take(k))),
                node_view(orig[k]),
            ));
        }
    }
    proof {
        assert(orig.take(orig.len() as int) =~= orig);
    }
    r
}

} // verus!
