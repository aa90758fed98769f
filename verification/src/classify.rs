//! The decorative-node classifier: decides, per element, whether it is a
//! structurally pointless wrapper.  Two interchangeable rules exist; both
//! share the core test "exactly one child, and that child is not text".

use vstd::prelude::*;

use crate::dom::{Node, NodeKind};

verus! {

/// Which heuristic the walker applies.
#[derive(Clone, Copy, Debug, PartialEq, Eq, Structural)]
pub enum Rule {
    /// Any element wrapping a single non-text child is suspect, unless its
    /// tag is on a fixed exemption list of legitimate single-child
    /// containers.
    ExemptTags,
    /// Only an attribute-free `div` or `span` wrapping a single non-text
    /// child is suspect.
    BareDivSpan,
}

/// Tags that are legitimately single-child wrappers by ordinary markup
/// convention, and so are never decorative under `Rule::ExemptTags`.
pub open spec fn exempt_tag(t: Seq<char>) -> bool {
    ||| t == "li"@
    ||| t == "svg"@
    ||| t == "a"@
    ||| t == "table"@
    ||| t == "tbody"@
    ||| t == "h1"@
    ||| t == "h2"@
    ||| t == "h3"@
    ||| t == "td"@
}

/// The shared core test: the node has exactly one child and that child is
/// not a text node.
pub open spec fn single_non_text_child(n: Node) -> bool {
    n.children@.len() == 1 && !(n.children@[0].kind is Text)
}

/// What it means for a node to be decorative under `rule`.
pub open spec fn decorative(n: Node, rule: Rule) -> bool {
    &&& n.kind is Element
    &&& single_non_text_child(n)
    &&& match rule {
        Rule::ExemptTags => !exempt_tag(n.tag@),
        Rule::BareDivSpan => n.attr_count == 0 && (n.tag@ == "div"@ || n.tag@ == "span"@),
    }
}

/// An element whose lowercase local name is exactly `t`.
pub open spec fn tagged(n: Node, t: Seq<char>) -> bool {
    n.kind is Element && n.tag@ == t
}

/// Exact, case-sensitive comparison of a node's tag against a literal name.
pub fn tag_is(n: &Node, t: &str) -> (r: bool)
    ensures
        r == (n.tag@ == t@),
{
    n.tag == t.to_owned()
}

fn is_exempt(n: &Node) -> (r: bool)
    ensures
        r == exempt_tag(n.tag@),
{
    tag_is(n, "li") || tag_is(n, "svg") || tag_is(n, "a") || tag_is(n, "table")
        || tag_is(n, "tbody") || tag_is(n, "h1") || tag_is(n, "h2") || tag_is(n, "h3")
        || tag_is(n, "td")
}

/// Applies the active rule to one node.
pub fn classify(n: &Node, rule: Rule) -> (r: bool)
    ensures
        r == decorative(*n, rule),
{
    if !(n.kind == NodeKind::Element) {
        return false;
    }
    if !(n.children.len() == 1 && !(n.children[0].kind == NodeKind::Text)) {
        return false;
    }
    match rule {
        Rule::ExemptTags => !is_exempt(n),
        Rule::BareDivSpan => n.attr_count == 0 && (tag_is(n, "div") || tag_is(n, "span")),
    }
}

} // verus!
