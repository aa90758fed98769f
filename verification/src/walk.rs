//! The tree walker: one pre-order pass over the parse tree that counts
//! decorative wrappers, `script` and `nav` tags, records the depth of every
//! leaf, and emits the markup of each flagged node in document order.

use vstd::prelude::*;

use crate::classify::{classify, decorative, tag_is, tagged, Rule};
use crate::dom::{
    lemma_node_count_seq_take_le, lemma_node_count_seq_take_step, node_count, node_count_seq,
    pi_free, Node, NodeKind,
};

verus! {

/// The running statistics of one walk.  Every field only grows while the
/// walk runs; nothing is ever reset.
#[derive(Debug)]
pub struct Stats {
    /// How many elements the active rule classified as decorative.
    pub decorative_nodes: usize,
    /// The depth of each childless node, in document order.
    pub depths: Vec<usize>,
    /// How many `script` elements the tree holds.
    pub script_tags: usize,
    /// How many `nav` elements the tree holds.
    pub nav_tags: usize,
}

impl Stats {
    /// Fresh statistics, everything at zero.
    pub fn new() -> (s: Stats)
        ensures
            s.decorative_nodes == 0,
            s.script_tags == 0,
            s.nav_tags == 0,
            s.depths@ == Seq::<usize>::empty(),
    {
        Stats { decorative_nodes: 0, depths: Vec::new(), script_tags: 0, nav_tags: 0 }
    }
}

/// How many nodes of the tree rooted at `n` are decorative under `rule`.
pub open spec fn count_decorative(n: Node, rule: Rule) -> nat
    decreases n,
{
    (if decorative(n, rule) {
        1nat
    } else {
        0nat
    }) + count_decorative_seq(n.children@, rule)
}

/// The same count, summed over a list of trees.
pub open spec fn count_decorative_seq(s: Seq<Node>, rule: Rule) -> nat
    decreases s,
{
    if s.len() == 0 {
        0
    } else {
        count_decorative_seq(s.drop_last(), rule) + count_decorative(s.last(), rule)
    }
}

/// How many elements of the tree rooted at `n` carry exactly the tag `t`.
pub open spec fn count_tag(n: Node, t: Seq<char>) -> nat
    decreases n,
{
    (if tagged(n, t) {
        1nat
    } else {
        0nat
    }) + count_tag_seq(n.children@, t)
}

/// The same count, summed over a list of trees.
pub open spec fn count_tag_seq(s: Seq<Node>, t: Seq<char>) -> nat
    decreases s,
{
    if s.len() == 0 {
        0
    } else {
        count_tag_seq(s.drop_last(), t) + count_tag(s.last(), t)
    }
}

/// The depths of the childless nodes of the tree rooted at `n`, in document
/// order, when `n` itself stands at depth `level`.
pub open spec fn leaf_depths(n: Node, level: usize) -> Seq<usize>
    decreases n,
{
    if n.children@.len() == 0 {
        seq![level]
    } else {
        leaf_depths_seq(n.children@, ((level + 1) as usize))
    }
}

/// The leaf depths of a list of sibling trees, each rooted at depth `level`.
pub open spec fn leaf_depths_seq(s: Seq<Node>, level: usize) -> Seq<usize>
    decreases s,
{
    if s.len() == 0 {
        Seq::empty()
    } else {
        leaf_depths_seq(s.drop_last(), level) + leaf_depths(s.last(), level)
    }
}

/// The markup of every decorative node of the tree rooted at `n`, in the
/// order the walk flags them (pre-order).
pub open spec fn marker_seq(n: Node, rule: Rule) -> Seq<String>
    decreases n,
{
    (if decorative(n, rule) {
        seq![n.markup]
    } else {
        Seq::empty()
    }) + marker_seq_seq(n.children@, rule)
}

/// The flagged markup of a list of sibling trees, in document order.
pub open spec fn marker_seq_seq(s: Seq<Node>, rule: Rule) -> Seq<String>
    decreases s,
{
    if s.len() == 0 {
        Seq::empty()
    } else {
        marker_seq_seq(s.drop_last(), rule) + marker_seq(s.last(), rule)
    }
}

/// No tree holds more decorative nodes than nodes.
pub proof fn lemma_count_decorative_le(n: Node, rule: Rule)
    ensures
        count_decorative(n, rule) <= node_count(n),
    decreases n,
{
    lemma_count_decorative_seq_le(n.children@, rule);
}

proof fn lemma_count_decorative_seq_le(s: Seq<Node>, rule: Rule)
    ensures
        count_decorative_seq(s, rule) <= node_count_seq(s),
    decreases s,
{
    if s.len() > 0 {
        lemma_count_decorative_seq_le(s.drop_last(), rule);
        lemma_count_decorative_le(s.last(), rule);
    }
}

/// No tree holds more elements of one tag than nodes.
pub proof fn lemma_count_tag_le(n: Node, t: Seq<char>)
    ensures
        count_tag(n, t) <= node_count(n),
    decreases n,
{
    lemma_count_tag_seq_le(n.children@, t);
}

proof fn lemma_count_tag_seq_le(s: Seq<Node>, t: Seq<char>)
    ensures
        count_tag_seq(s, t) <= node_count_seq(s),
    decreases s,
{
    if s.len() > 0 {
        lemma_count_tag_seq_le(s.drop_last(), t);
        lemma_count_tag_le(s.last(), t);
    }
}

proof fn lemma_cd_seq_take_step(s: Seq<Node>, rule: Rule, i: int)
    requires
        0 <= i < s.len(),
    ensures
        count_decorative_seq(s.take(i + 1), rule) == count_decorative_seq(s.take(i), rule)
            + count_decorative(s[i], rule),
{
    assert(s.take(i + 1).drop_last() =~= s.take(i));
    assert(s.take(i + 1).last() == s[i]);
}

proof fn lemma_ct_seq_take_step(s: Seq<Node>, t: Seq<char>, i: int)
    requires
        0 <= i < s.len(),
    ensures
        count_tag_seq(s.take(i + 1), t) == count_tag_seq(s.take(i), t) + count_tag(s[i], t),
{
    assert(s.take(i + 1).drop_last() =~= s.take(i));
    assert(s.take(i + 1).last() == s[i]);
}

proof fn lemma_ld_seq_take_step(s: Seq<Node>, level: usize, i: int)
    requires
        0 <= i < s.len(),
    ensures
        leaf_depths_seq(s.take(i + 1), level) == leaf_depths_seq(s.take(i), level) + leaf_depths(
            s[i],
            level,
        ),
{
    assert(s.take(i + 1).drop_last() =~= s.take(i));
    assert(s.take(i + 1).last() == s[i]);
}

proof fn lemma_ms_seq_take_step(s: Seq<Node>, rule: Rule, i: int)
    requires
        0 <= i < s.len(),
    ensures
        marker_seq_seq(s.take(i + 1), rule) == marker_seq_seq(s.take(i), rule) + marker_seq(
            s[i],
            rule,
        ),
{
    assert(s.take(i + 1).drop_last() =~= s.take(i));
    assert(s.take(i + 1).last() == s[i]);
}

/// Visits every node of the tree rooted at `node` exactly once, in document
/// order, with `node` itself at depth `level`.  Counts are added to `stats`,
/// and the markup of every node the rule flags is appended to `out` the
/// moment it is flagged.  The tree itself is never changed.
#[verifier::loop_isolation(false)]
#[verifier::rlimit(60)]
pub fn walk(level: usize, node: &Node, rule: Rule, stats: &mut Stats, out: &mut Vec<String>)
    requires
        pi_free(*node),
        level + node_count(*node) <= usize::MAX,
        old(stats).decorative_nodes + node_count(*node) <= usize::MAX,
        old(stats).script_tags + node_count(*node) <= usize::MAX,
        old(stats).nav_tags + node_count(*node) <= usize::MAX,
    ensures
        final(stats).decorative_nodes == old(stats).decorative_nodes + count_decorative(
            *node,
            rule,
        ),
        final(stats).script_tags == old(stats).script_tags + count_tag(*node, "script"@),
        final(stats).nav_tags == old(stats).nav_tags + count_tag(*node, "nav"@),
        final(stats).depths@ == old(stats).depths@ + leaf_depths(*node, level),
        final(out)@ == old(out)@ + marker_seq(*node, rule),
    decreases *node,
{
    if tag_is(node, "script") && node.kind == NodeKind::Element {
        stats.script_tags = stats.script_tags + 1;
    }
    if tag_is(node, "nav") && node.kind == NodeKind::Element {
        stats.nav_tags = stats.nav_tags + 1;
    }
    if classify(node, rule) {
        stats.decorative_nodes = stats.decorative_nodes + 1;
        out.push(node.markup.clone());
    }
    let ghost stats1 = *stats;
    let ghost out1 = *out;
    let ghost s = node.children@;
    let mut i: usize = 0;
    while i < node.children.len()
        invariant
            i <= s.len(),
            stats.decorative_nodes == stats1.decorative_nodes + count_decorative_seq(
                s.take(i as int),
                rule,
            ),
            stats.script_tags == stats1.script_tags + count_tag_seq(s.take(i as int), "script"@),
            stats.nav_tags == stats1.nav_tags + count_tag_seq(s.take(i as int), "nav"@),
            stats.depths@ == stats1.depths@ + leaf_depths_seq(
                s.take(i as int),
                ((level + 1) as usize),
            ),
            out@ == out1@ + marker_seq_seq(s.take(i as int), rule),
        decreases s.len() - i,
    {
        proof {
            lemma_node_count_seq_take_step(s, i as int);
            lemma_node_count_seq_take_le(s, i as int + 1);
            lemma_count_decorative_seq_le(s.take(i as int), rule);
            lemma_count_tag_seq_le(s.take(i as int), "script"@);
            lemma_count_tag_seq_le(s.take(i as int), "nav"@);
        }
        walk(level + 1, &node.children[i], rule, stats, out);
        proof {
            lemma_cd_seq_take_step(s, rule, i as int);
            lemma_ct_seq_take_step(s, "script"@, i as int);
            lemma_ct_seq_take_step(s, "nav"@, i as int);
            lemma_ld_seq_take_step(s, ((level + 1) as usize), i as int);
            lemma_ms_seq_take_step(s, rule, i as int);
        }
        i = i + 1;
    }
    proof {
        assert(s.take(s.len() as int) =~= s);
    }
    if node.children.len() == 0 {
        stats.depths.push(level);
        proof {
            assert(stats.depths@ =~= stats1.depths@ + leaf_depths(*node, level));
        }
    }
}

} // verus!
