//! Walk and classifier behaviour over hand-built trees.

use markup_audit::audit;
use markup_audit::classify::Rule;
use markup_audit::dom::{survey, Node, NodeKind};
use markup_audit::walk::{walk, Stats};

fn element(tag: &str, attr_count: usize, markup: &str, children: Vec<Node>) -> Node {
    Node {
        kind: NodeKind::Element,
        tag: tag.to_string(),
        attr_count,
        markup: markup.to_string(),
        children,
    }
}

fn leaf(kind: NodeKind) -> Node {
    Node {
        kind,
        tag: String::new(),
        attr_count: 0,
        markup: String::new(),
        children: Vec::new(),
    }
}

fn text() -> Node {
    leaf(NodeKind::Text)
}

#[test]
fn single_root_element_boundary() {
    let root = element("html", 0, "<html></html>", vec![]);
    let a = audit(&root, Rule::ExemptTags).unwrap();
    assert_eq!(a.stats.decorative_nodes, 0);
    assert_eq!(a.stats.script_tags, 0);
    assert_eq!(a.stats.nav_tags, 0);
    assert_eq!(a.stats.depths, vec![0]);
    assert_eq!(a.stats.average_depth(), 0);
    assert_eq!(a.stats.max_depth(), 0);
    assert!(a.out.is_empty());
}

#[test]
fn bare_div_around_span_is_decorative() {
    // html > body > div > span > "hi": only the attribute-free div wraps a
    // single non-text child while being a div or span.
    let span = element("span", 0, "<span>hi</span>", vec![text()]);
    let div = element("div", 0, "<div><span>hi</span></div>", vec![span]);
    let body = element("body", 0, "", vec![div]);
    let html = element("html", 0, "", vec![body]);
    let a = audit(&html, Rule::BareDivSpan).unwrap();
    assert_eq!(a.stats.decorative_nodes, 1);
    assert_eq!(a.out, vec!["<div><span>hi</span></div>".to_string()]);
}

#[test]
fn td_is_exempt_but_div_is_not() {
    // td > div > p > "x": the td wraps a single non-text child but stands on
    // the exemption list; the div does not, so only the div is flagged.
    let p = element("p", 0, "<p>x</p>", vec![text()]);
    let div = element("div", 0, "<div><p>x</p></div>", vec![p]);
    let td = element("td", 0, "<td><div><p>x</p></div></td>", vec![div]);
    let a = audit(&td, Rule::ExemptTags).unwrap();
    assert_eq!(a.stats.decorative_nodes, 1);
    assert_eq!(a.out, vec!["<div><p>x</p></div>".to_string()]);
}

#[test]
fn every_exempt_tag_escapes_suspicion() {
    for tag in ["li", "svg", "a", "table", "tbody", "h1", "h2", "h3", "td"] {
        let inner = element("div", 0, "", vec![text()]);
        let outer = element(tag, 0, "", vec![inner]);
        let a = audit(&outer, Rule::ExemptTags).unwrap();
        assert_eq!(a.stats.decorative_nodes, 0, "tag {} must be exempt", tag);
    }
    // The same shape under a tag off the list is flagged.
    let inner = element("div", 0, "", vec![text()]);
    let outer = element("p", 0, "", vec![inner]);
    let a = audit(&outer, Rule::ExemptTags).unwrap();
    assert_eq!(a.stats.decorative_nodes, 1);
}

#[test]
fn bare_rule_wants_div_or_span_without_attributes() {
    let wrapped = |tag: &str, attrs: usize| {
        let inner = element("p", 0, "", vec![text()]);
        element(tag, attrs, "", vec![inner])
    };
    // A div with an attribute is not bare.
    let a = audit(&wrapped("div", 1), Rule::BareDivSpan).unwrap();
    assert_eq!(a.stats.decorative_nodes, 0);
    // ... though the exemption-list rule still flags it.
    let a = audit(&wrapped("div", 1), Rule::ExemptTags).unwrap();
    assert_eq!(a.stats.decorative_nodes, 1);
    // A bare span qualifies; a bare section does not.
    let a = audit(&wrapped("span", 0), Rule::BareDivSpan).unwrap();
    assert_eq!(a.stats.decorative_nodes, 1);
    let a = audit(&wrapped("section", 0), Rule::BareDivSpan).unwrap();
    assert_eq!(a.stats.decorative_nodes, 0);
}

#[test]
fn never_decorative_with_many_children_or_a_text_child() {
    for rule in [Rule::ExemptTags, Rule::BareDivSpan] {
        let two = element(
            "div",
            0,
            "",
            vec![element("p", 0, "", vec![]), element("p", 0, "", vec![])],
        );
        assert_eq!(audit(&two, rule).unwrap().stats.decorative_nodes, 0);
        let text_child = element("div", 0, "", vec![text()]);
        assert_eq!(audit(&text_child, rule).unwrap().stats.decorative_nodes, 0);
    }
}

#[test]
fn document_and_comment_nodes_are_not_elements() {
    // A document node wrapping one element is not itself decorative, and a
    // comment is never one either.
    let child = element("div", 0, "", vec![element("p", 0, "", vec![text()])]);
    let doc = Node {
        kind: NodeKind::Document,
        tag: String::new(),
        attr_count: 0,
        markup: String::new(),
        children: vec![leaf(NodeKind::Comment), child],
    };
    let a = audit(&doc, Rule::ExemptTags).unwrap();
    // Only the div (one non-text child, not exempt) is flagged.
    assert_eq!(a.stats.decorative_nodes, 1);
}

#[test]
fn script_and_nav_counts_are_exact_and_case_sensitive() {
    let deep_script = element("script", 3, "", vec![text()]);
    let shouting = element("SCRIPT", 0, "", vec![]);
    let nav = element("nav", 0, "", vec![element("script", 0, "", vec![])]);
    let body = element("body", 0, "", vec![deep_script, shouting, nav]);
    let a = audit(&body, Rule::ExemptTags).unwrap();
    assert_eq!(a.stats.script_tags, 2);
    assert_eq!(a.stats.nav_tags, 1);
}

#[test]
fn nested_wrappers_each_count_once() {
    // div > div > div > text: the innermost div has a text child, the two
    // outer ones each wrap a single non-text child.
    let inner = element("div", 0, "c", vec![text()]);
    let mid = element("div", 0, "b", vec![inner]);
    let outer = element("div", 0, "a", vec![mid]);
    for rule in [Rule::ExemptTags, Rule::BareDivSpan] {
        let a = audit(&outer, rule).unwrap();
        assert_eq!(a.stats.decorative_nodes, 2);
        // Flagged in document order: outer first.
        assert_eq!(a.out, vec!["a".to_string(), "b".to_string()]);
    }
}

#[test]
fn leaf_depths_and_their_average_and_maximum() {
    // root > (a, b > c): leaves a at depth 1 and c at depth 2.
    let c = element("p", 0, "", vec![]);
    let b = element("div", 0, "", vec![c]);
    let a_el = element("p", 0, "", vec![]);
    let root = element("main", 0, "", vec![a_el, b]);
    let a = audit(&root, Rule::ExemptTags).unwrap();
    assert_eq!(a.stats.depths, vec![1, 2]);
    assert_eq!(a.stats.average_depth(), 1); // (1 + 2) / 2, integer division
    assert_eq!(a.stats.max_depth(), 2);
}

#[test]
fn empty_depth_recording_is_guarded() {
    let s = Stats {
        decorative_nodes: 0,
        depths: Vec::new(),
        script_tags: 0,
        nav_tags: 0,
    };
    assert_eq!(s.average_depth(), 0);
    assert_eq!(s.max_depth(), 0);
}

#[test]
fn processing_instruction_is_refused() {
    let pi = leaf(NodeKind::ProcessingInstruction);
    let root = element("html", 0, "", vec![pi]);
    assert!(audit(&root, Rule::ExemptTags).is_none());
}

#[test]
fn survey_reports_the_exact_node_total() {
    // main > (p, div > p > text): five nodes in all.
    let tree = element(
        "main",
        0,
        "",
        vec![
            element("p", 0, "", vec![]),
            element("div", 0, "", vec![element("p", 0, "", vec![text()])]),
        ],
    );
    assert_eq!(survey(&tree), Some(5));
    let pi = leaf(NodeKind::ProcessingInstruction);
    assert_eq!(survey(&pi), None);
}

#[test]
fn a_deep_chain_of_wrappers() {
    // Fifty nested divs around one text node: every div but the innermost
    // wraps a single non-text child.
    let mut node = element("div", 0, "", vec![text()]);
    for _ in 0..49 {
        node = element("div", 0, "", vec![node]);
    }
    let a = audit(&node, Rule::ExemptTags).unwrap();
    assert_eq!(a.stats.decorative_nodes, 49);
    assert_eq!(a.stats.depths, vec![50]);
    assert_eq!(a.stats.average_depth(), 50);
    assert_eq!(a.stats.max_depth(), 50);
}

#[test]
fn walk_adds_onto_running_statistics() {
    let root = element("div", 0, "m", vec![element("p", 0, "", vec![text()])]);
    let mut stats = Stats {
        decorative_nodes: 5,
        depths: vec![7],
        script_tags: 2,
        nav_tags: 1,
    };
    let mut out: Vec<String> = vec!["earlier".to_string()];
    walk(3, &root, Rule::ExemptTags, &mut stats, &mut out);
    assert_eq!(stats.decorative_nodes, 6);
    assert_eq!(stats.script_tags, 2);
    assert_eq!(stats.nav_tags, 1);
    assert_eq!(stats.depths, vec![7, 5]); // the one leaf, the text, at depth 3 + 2
    assert_eq!(out, vec!["earlier".to_string(), "m".to_string()]);
}
