//! The walk's global guarantees, stated and proved once over the spec
//! model: the counters count exactly (each qualifying node once, none
//! missed), and the whole walk is a function of the tree's content alone,
//! so two independently parsed copies of one input give identical
//! statistics and identical flagged output.

use vstd::prelude::*;

use crate::classify::{decorative, tagged, Rule};
use crate::dom::{node_count, node_count_seq, preorder, preorder_seq, same_shape, Node};
use crate::report::{lemma_seq_max_add, seq_max};
use crate::walk::{
    count_decorative, count_decorative_seq, count_tag, count_tag_seq, leaf_depths,
    leaf_depths_seq, marker_seq, marker_seq_seq,
};

verus! {

/// The content of a list of emitted markup strings, for comparisons that
/// ignore where each string was allocated.
pub open spec fn marker_views(s: Seq<String>) -> Seq<Seq<char>> {
    s.map_values(|x: String| x@)
}

/// `decorative_nodes` counts every decorative node of the tree exactly
/// once: it equals the length of the document-order node list restricted
/// to the nodes the rule flags.
pub proof fn lemma_decorative_count_is_filter(n: Node, rule: Rule)
    ensures
        count_decorative(n, rule) == preorder(n).filter(
            |m: Node| decorative(m, rule),
        ).len(),
    decreases n,
{
    let p = |m: Node| decorative(m, rule);
    Seq::lemma_filter_prepend(preorder_seq(n.children@), n, p);
    lemma_decorative_count_is_filter_seq(n.children@, rule);
}

proof fn lemma_decorative_count_is_filter_seq(s: Seq<Node>, rule: Rule)
    ensures
        count_decorative_seq(s, rule) == preorder_seq(s).filter(
            |m: Node| decorative(m, rule),
        ).len(),
    decreases s,
{
    let p = |m: Node| decorative(m, rule);
    if s.len() == 0 {
        reveal(Seq::filter);
    } else {
        lemma_decorative_count_is_filter_seq(s.drop_last(), rule);
        lemma_decorative_count_is_filter(s.last(), rule);
        Seq::filter_distributes_over_add(preorder_seq(s.drop_last()), preorder(s.last()), p);
    }
}

/// `script_tags` and `nav_tags` count exactly: for any tag name `t`, the
/// tag counter over a tree equals the length of its document-order node
/// list restricted to elements named `t`.
pub proof fn lemma_tag_count_is_filter(n: Node, t: Seq<char>)
    ensures
        count_tag(n, t) == preorder(n).filter(|m: Node| tagged(m, t)).len(),
    decreases n,
{
    let p = |m: Node| tagged(m, t);
    Seq::lemma_filter_prepend(preorder_seq(n.children@), n, p);
    lemma_tag_count_is_filter_seq(n.children@, t);
}

proof fn lemma_tag_count_is_filter_seq(s: Seq<Node>, t: Seq<char>)
    ensures
        count_tag_seq(s, t) == preorder_seq(s).filter(|m: Node| tagged(m, t)).len(),
    decreases s,
{
    let p = |m: Node| tagged(m, t);
    if s.len() == 0 {
        reveal(Seq::filter);
    } else {
        lemma_tag_count_is_filter_seq(s.drop_last(), t);
        lemma_tag_count_is_filter(s.last(), t);
        Seq::filter_distributes_over_add(preorder_seq(s.drop_last()), preorder(s.last()), p);
    }
}

/// The walk is repeatable: over two trees of the same content — as two
/// independently parsed copies of one input are — every statistic and the
/// emitted markup, byte for byte, come out identical.
pub proof fn lemma_same_input_same_results(
    a: Node,
    b: Node,
    rule: Rule,
    t: Seq<char>,
    level: usize,
)
    requires
        same_shape(a, b),
    ensures
        count_decorative(a, rule) == count_decorative(b, rule),
        count_tag(a, t) == count_tag(b, t),
        leaf_depths(a, level) == leaf_depths(b, level),
        marker_views(marker_seq(a, rule)) == marker_views(marker_seq(b, rule)),
    decreases a,
{
    assert(decorative(a, rule) == decorative(b, rule)) by {
        if a.children@.len() == 1 {
            assert(same_shape(a.children@[0], b.children@[0]));
        }
    }
    lemma_same_input_same_results_seq(a.children@, b.children@, rule, t, ((level + 1) as usize));
    assert(marker_views(marker_seq(a, rule)) =~= marker_views(marker_seq(b, rule))) by {
        lemma_marker_views_add(
            if decorative(a, rule) {
                seq![a.markup]
            } else {
                Seq::empty()
            },
            marker_seq_seq(a.children@, rule),
        );
        lemma_marker_views_add(
            if decorative(b, rule) {
                seq![b.markup]
            } else {
                Seq::empty()
            },
            marker_seq_seq(b.children@, rule),
        );
    }
}

proof fn lemma_same_input_same_results_seq(
    a: Seq<Node>,
    b: Seq<Node>,
    rule: Rule,
    t: Seq<char>,
    level: usize,
)
    requires
        a.len() == b.len(),
        forall|i: int| 0 <= i < a.len() ==> same_shape(#[trigger] a[i], b[i]),
    ensures
        count_decorative_seq(a, rule) == count_decorative_seq(b, rule),
        count_tag_seq(a, t) == count_tag_seq(b, t),
        leaf_depths_seq(a, level) == leaf_depths_seq(b, level),
        marker_views(marker_seq_seq(a, rule)) == marker_views(marker_seq_seq(b, rule)),
    decreases a,
{
    if a.len() == 0 {
        assert(marker_views(marker_seq_seq(a, rule)) =~= marker_views(
            marker_seq_seq(b, rule),
        ));
    } else {
        assert(forall|i: int|
            0 <= i < a.len() - 1 ==> same_shape(#[trigger] a.drop_last()[i], b.drop_last()[i]));
        lemma_same_input_same_results_seq(a.drop_last(), b.drop_last(), rule, t, level);
        assert(same_shape(a.last(), b.last()));
        lemma_same_input_same_results(a.last(), b.last(), rule, t, level);
        assert(leaf_depths_seq(a, level) == leaf_depths_seq(b, level));
        assert(marker_views(marker_seq_seq(a, rule)) =~= marker_views(
            marker_seq_seq(b, rule),
        )) by {
            lemma_marker_views_add(marker_seq_seq(a.drop_last(), rule), marker_seq(a.last(), rule));
            lemma_marker_views_add(marker_seq_seq(b.drop_last(), rule), marker_seq(b.last(), rule));
        }
    }
}

/// Every tree has at least one childless node, so a full walk always
/// records at least one depth and the average is never a division by zero.
pub proof fn lemma_leaf_depths_nonempty(n: Node, level: usize)
    ensures
        leaf_depths(n, level).len() >= 1,
    decreases n,
{
    if n.children@.len() > 0 {
        lemma_leaf_depths_seq_nonempty(n.children@, ((level + 1) as usize));
    }
}

proof fn lemma_leaf_depths_seq_nonempty(s: Seq<Node>, level: usize)
    requires
        s.len() >= 1,
    ensures
        leaf_depths_seq(s, level).len() >= 1,
    decreases s,
{
    lemma_leaf_depths_nonempty(s.last(), level);
}

/// One block of flagged markup is emitted per decorative node: the output
/// and the counter always agree.
pub proof fn lemma_one_marker_per_decorative_node(n: Node, rule: Rule)
    ensures
        marker_seq(n, rule).len() == count_decorative(n, rule),
    decreases n,
{
    lemma_one_marker_per_decorative_node_seq(n.children@, rule);
}

proof fn lemma_one_marker_per_decorative_node_seq(s: Seq<Node>, rule: Rule)
    ensures
        marker_seq_seq(s, rule).len() == count_decorative_seq(s, rule),
    decreases s,
{
    if s.len() > 0 {
        lemma_one_marker_per_decorative_node_seq(s.drop_last(), rule);
        lemma_one_marker_per_decorative_node(s.last(), rule);
    }
}

/// The greatest depth any node of the tree reaches, `n` itself standing at
/// `level`; every node is counted, childless or not.
pub open spec fn max_level(n: Node, level: usize) -> usize
    decreases n,
{
    if n.children@.len() == 0 {
        level
    } else {
        let m = max_level_seq(n.children@, ((level + 1) as usize));
        if m >= level {
            m
        } else {
            level
        }
    }
}

/// The greatest depth reached inside a list of sibling trees, each rooted
/// at `level`; 0 when the list is empty.
pub open spec fn max_level_seq(s: Seq<Node>, level: usize) -> usize
    decreases s,
{
    if s.len() == 0 {
        0
    } else {
        let m = max_level_seq(s.drop_last(), level);
        if m >= max_level(s.last(), level) {
            m
        } else {
            max_level(s.last(), level)
        }
    }
}

proof fn lemma_max_level_ge(n: Node, level: usize)
    ensures
        max_level(n, level) >= level,
    decreases n,
{
}

/// The deepest node of a tree is always childless, so the maximum recorded
/// leaf depth already equals the greatest level reached by any node at all.
pub proof fn lemma_max_leaf_depth_is_greatest_level(n: Node, level: usize)
    requires
        level + node_count(n) <= usize::MAX,
    ensures
        seq_max(leaf_depths(n, level)) == max_level(n, level),
    decreases n,
{
    if n.children@.len() == 0 {
        assert(seq_max(seq![level]) == level) by {
            reveal_with_fuel(seq_max, 2);
        }
    } else {
        lemma_max_leaf_depth_is_greatest_level_seq(n.children@, ((level + 1) as usize));
        lemma_max_level_seq_ge(n.children@, ((level + 1) as usize));
    }
}

proof fn lemma_max_level_seq_ge(s: Seq<Node>, level: usize)
    requires
        s.len() >= 1,
    ensures
        max_level_seq(s, level) >= level,
    decreases s,
{
    lemma_max_level_ge(s.last(), level);
}

proof fn lemma_max_leaf_depth_is_greatest_level_seq(s: Seq<Node>, level: usize)
    requires
        level + node_count_seq(s) <= usize::MAX,
    ensures
        seq_max(leaf_depths_seq(s, level)) == max_level_seq(s, level),
    decreases s,
{
    if s.len() > 0 {
        lemma_max_leaf_depth_is_greatest_level_seq(s.drop_last(), level);
        lemma_max_leaf_depth_is_greatest_level(s.last(), level);
        lemma_seq_max_add(leaf_depths_seq(s.drop_last(), level), leaf_depths(s.last(), level));
    }
}

proof fn lemma_marker_views_add(x: Seq<String>, y: Seq<String>)
    ensures
        marker_views(x + y) == marker_views(x) + marker_views(y),
{
    assert(marker_views(x + y) =~= marker_views(x) + marker_views(y));
}

} // verus!
