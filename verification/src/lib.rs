//! A markup-bloat auditor's core: walk a parsed HTML tree once, flag
//! "decorative" wrapper elements — single-child containers that add no
//! semantic value — and accumulate structural statistics (tag counts and
//! leaf depths).  Depth accounting records the depth of every childless
//! node — the leaf-depth distribution — from which the report takes the
//! average and the maximum.  Parsing the input and printing the report sit
//! outside; this crate holds the classification and the arithmetic,
//! verified.

pub mod classify;
pub mod dom;
pub mod laws;
pub mod report;
pub mod walk;

use vstd::prelude::*;

use crate::classify::Rule;
use crate::dom::{node_count, pi_free, survey, Node};
use crate::walk::{count_decorative, count_tag, leaf_depths, marker_seq, walk, Stats};

verus! {

/// Everything one walk over a tree produces: the statistics, and the
/// markup of each flagged node in the order the walk met them.
pub struct Audit {
    pub stats: Stats,
    pub out: Vec<String>,
}

/// Audits a whole tree from the root: checks it first, then walks it once
/// with the chosen rule.  Returns `None` exactly when the tree is unfit —
/// it holds a processing instruction, or more nodes than a machine word
/// can count — and otherwise the complete statistics and flagged markup.
pub fn audit(root: &Node, rule: Rule) -> (r: Option<Audit>)
    ensures
        r is Some <==> (pi_free(*root) && node_count(*root) <= usize::MAX),
        r matches Some(a) ==> {
            &&& a.stats.decorative_nodes == count_decorative(*root, rule)
            &&& a.stats.script_tags == count_tag(*root, "script"@)
            &&& a.stats.nav_tags == count_tag(*root, "nav"@)
            &&& a.stats.depths@ == leaf_depths(*root, 0)
            &&& a.out@ == marker_seq(*root, rule)
        },
{
    match survey(root) {
        None => None,
        Some(_total) => {
            let mut stats = Stats::new();
            let mut out: Vec<String> = Vec::new();
            walk(0, root, rule, &mut stats, &mut out);
            Some(Audit { stats, out })
        },
    }
}

} // verus!
