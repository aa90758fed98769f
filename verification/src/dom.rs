//! The tree model that the walker runs over: a rooted, ordered tree of
//! typed nodes, as an HTML parser produces it.  Each node carries the few
//! plain facts the classifier reads (kind, tag name, attribute count) and
//! the serialized markup of its own subtree, as the parser adapter
//! rendered it.

use vstd::prelude::*;

verus! {

/// The closed set of node variants a parsed document can contain.
#[derive(Clone, Copy, Debug, PartialEq, Eq, Structural)]
pub enum NodeKind {
    Document,
    Doctype,
    Text,
    Comment,
    Element,
    ProcessingInstruction,
}

/// One node of the parse tree.  `tag` is the lowercase local name and is
/// meaningful only when `kind` is `Element`; for other kinds it is empty by
/// convention.  `attr_count` is the number of attributes on an element.
/// `markup` is the serialized source of this node's whole subtree, supplied
/// by the parser adapter; the walker emits it verbatim for nodes it flags.
#[derive(Debug)]
pub struct Node {
    pub kind: NodeKind,
    pub tag: String,
    pub attr_count: usize,
    pub markup: String,
    pub children: Vec<Node>,
}

/// True when no node of the tree is a processing instruction.  An HTML
/// parser never produces one, so the walker takes this as an invariant of
/// its input rather than classifying such a node arbitrarily.
pub open spec fn pi_free(n: Node) -> bool
    decreases n,
{
    &&& !(n.kind is ProcessingInstruction)
    &&& forall|i: int| 0 <= i < n.children@.len() ==> pi_free(#[trigger] n.children@[i])
}

/// Total number of nodes in the tree rooted at `n`, `n` itself included.
pub open spec fn node_count(n: Node) -> nat
    decreases n,
{
    1 + node_count_seq(n.children@)
}

/// Total number of nodes in all the trees of `s` together.
pub open spec fn node_count_seq(s: Seq<Node>) -> nat
    decreases s,
{
    if s.len() == 0 {
        0
    } else {
        node_count_seq(s.drop_last()) + node_count(s.last())
    }
}

/// All nodes of the tree rooted at `n` in document order: the node itself,
/// then the nodes of each child subtree, left to right.
pub open spec fn preorder(n: Node) -> Seq<Node>
    decreases n,
{
    seq![n] + preorder_seq(n.children@)
}

/// The document-order nodes of a list of sibling trees.
pub open spec fn preorder_seq(s: Seq<Node>) -> Seq<Node>
    decreases s,
{
    if s.len() == 0 {
        Seq::empty()
    } else {
        preorder_seq(s.drop_last()) + preorder(s.last())
    }
}

/// Two trees that carry the same data in the same shape, as two
/// independently parsed copies of one input do.  Equality is by content
/// (views of the strings), not by allocation.
pub open spec fn same_shape(a: Node, b: Node) -> bool
    decreases a,
{
    &&& a.kind == b.kind
    &&& a.tag@ == b.tag@
    &&& a.attr_count == b.attr_count
    &&& a.markup@ == b.markup@
    &&& a.children@.len() == b.children@.len()
    &&& forall|i: int|
        0 <= i < a.children@.len() ==> same_shape(#[trigger] a.children@[i], b.children@[i])
}

/// Splitting one more tree off a prefix adds exactly that tree's nodes.
pub proof fn lemma_node_count_seq_take_step(s: Seq<Node>, i: int)
    requires
        0 <= i < s.len(),
    ensures
        node_count_seq(s.take(i + 1)) == node_count_seq(s.take(i)) + node_count(s[i]),
{
    assert(s.take(i + 1).drop_last() =~= s.take(i));
    assert(s.take(i + 1).last() == s[i]);
}

/// One checking pass over the tree: reports its exact node total, or
/// `None` when the tree is unfit for a walk — it contains a processing
/// instruction (which an HTML parser never emits, so such a tree signals a
/// defect upstream) or has more nodes than a machine word can count.
#[verifier::loop_isolation(false)]
pub fn survey(node: &Node) -> (r: Option<usize>)
    ensures
        match r {
            Some(c) => pi_free(*node) && node_count(*node) == c,
            None => !pi_free(*node) || node_count(*node) > usize::MAX,
        },
    decreases *node,
{
    if node.kind == NodeKind::ProcessingInstruction {
        return None;
    }
    let ghost s = node.children@;
    let mut total: usize = 1;
    let mut i: usize = 0;
    while i < node.children.len()
        invariant
            i <= s.len(),
            total == 1 + node_count_seq(s.take(i as int)),
            forall|j: int| 0 <= j < i ==> pi_free(#[trigger] s[j]),
        decreases s.len() - i,
    {
        proof {
            lemma_node_count_seq_take_step(s, i as int);
            lemma_node_count_seq_take_le(s, i as int + 1);
        }
        match survey(&node.children[i]) {
            None => {
                return None;
            },
            Some(c) => {
                if total <= usize::MAX - c {
                    total = total + c;
                } else {
                    return None;
                }
            },
        }
        i = i + 1;
    }
    proof {
        assert(s.take(s.len() as int) =~= s);
    }
    Some(total)
}

/// The node total of a prefix never exceeds the total of the whole list.
pub proof fn lemma_node_count_seq_take_le(s: Seq<Node>, i: int)
    requires
        0 <= i <= s.len(),
    ensures
        node_count_seq(s.take(i)) <= node_count_seq(s),
    decreases s.len() - i,
{
    if i == s.len() {
        assert(s.take(i) =~= s);
    } else {
        lemma_node_count_seq_take_step(s, i);
        lemma_node_count_seq_take_le(s, i + 1);
    }
}

} // verus!
