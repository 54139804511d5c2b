//! Syntax diagnostics from recovery (`ERROR`) and synthesized (`MISSING`) nodes.

use vstd::prelude::*;

use crate::diagnostics::{code_of, RuledDiagnostic};
use crate::span::TextSpan;
use crate::syntax::SyntaxNode;

verus! {

/// One syntax problem found in the tree: whether the node is missing (else it is an error
/// node), its kind, and its span.
pub type SyntaxIssue = (bool, Seq<char>, TextSpan);

/// The problems one node reports about itself.
pub open spec fn own_issue(n: SyntaxNode) -> Seq<SyntaxIssue> {
    if n.is_missing {
        seq![(true, n.kind@, n.span)]
    } else if n.is_error {
        seq![(false, n.kind@, n.span)]
    } else {
        Seq::empty()
    }
}

/// Every syntax problem in the subtree rooted at `n`, in pre-order.
pub open spec fn syntax_issues(n: SyntaxNode) -> Seq<SyntaxIssue>
    decreases n,
{
    own_issue(n) + syntax_issues_list(n.children@)
}

/// Every syntax problem in a sequence of sibling subtrees, in order.
pub open spec fn syntax_issues_list(cs: Seq<SyntaxNode>) -> Seq<SyntaxIssue>
    decreases cs,
{
    if cs.len() == 0 {
        Seq::empty()
    } else {
        syntax_issues_list(cs.drop_last()) + syntax_issues(cs.last())
    }
}

/// Whether diagnostic `d` reports issue `i`.
pub open spec fn reports_issue(d: RuledDiagnostic, i: SyntaxIssue) -> bool {
    &&& d.diagnostic.span == i.2
    &&& d.diagnostic.document is None
    &&& if i.0 {
        code_of(d) == "syntax.missing-node"@ && d.diagnostic.message@ == "missing "@ + i.1
    } else {
        code_of(d) == "syntax.error-node"@ && d.diagnostic.message@ == "unexpected syntax"@
    }
}

/// Whether `out` is `before` followed by one diagnostic per issue of `issues`.
pub open spec fn extends_with_issues(
    out: Seq<RuledDiagnostic>,
    before: Seq<RuledDiagnostic>,
    issues: Seq<SyntaxIssue>,
) -> bool {
    &&& out.len() == before.len() + issues.len()
    &&& out.subrange(0, before.len() as int) == before
    &&& forall|k: int| 0 <= k < issues.len() ==> reports_issue(#[trigger] out[before.len() + k], issues[k])
}

/// Collects one diagnostic per recovery or missing node, in pre-order.
pub fn collect(root: &SyntaxNode) -> (r: Vec<RuledDiagnostic>)
    ensures
        r@.len() == syntax_issues(*root).len(),
        forall|k: int| 0 <= k < r@.len() ==> reports_issue(#[trigger] r@[k], syntax_issues(*root)[k]),
{
    let mut diagnostics = Vec::new();
    collect_from_node(root, &mut diagnostics);
    assert(diagnostics@.subrange(0, 0) =~= Seq::<RuledDiagnostic>::empty());
    assert forall|k: int| 0 <= k < diagnostics@.len() implies reports_issue(#[trigger] diagnostics@[k], syntax_issues(*root)[k]) by {
        assert(diagnostics@[0 + k] == diagnostics@[k]);
    }
    diagnostics
}

fn collect_from_node(node: &SyntaxNode, diagnostics: &mut Vec<RuledDiagnostic>)
    ensures
        extends_with_issues(final(diagnostics)@, old(diagnostics)@, syntax_issues(*node)),
    decreases node,
{
    let ghost before = diagnostics@;
    if node.is_missing {
        diagnostics.push(RuledDiagnostic::missing_node(node.kind.as_str(), node.span));
    } else if node.is_error {
        diagnostics.push(RuledDiagnostic::unexpected_syntax(node.span));
    }
    let ghost mid = diagnostics@;
    proof {
        assert(mid.subrange(0, before.len() as int) =~= before);
        if node.is_missing || node.is_error {
            assert(mid[before.len() as int + 0] == mid.last());
        }
        assert(extends_with_issues(mid, before, own_issue(*node)));
        assert(node.children@.take(0) =~= Seq::<SyntaxNode>::empty());
        assert(syntax_issues_list(node.children@.take(0)) =~= Seq::<SyntaxIssue>::empty());
        assert(diagnostics@.subrange(0, mid.len() as int) =~= mid);
    }
    let mut i: usize = 0;
    while i < node.children.len()
        invariant
            i <= node.children.len(),
            extends_with_issues(mid, before, own_issue(*node)),
            extends_with_issues(diagnostics@, mid, syntax_issues_list(node.children@.take(i as int))),
        decreases node.children.len() - i,
    {
        let ghost cur = diagnostics@;
        collect_from_node(&node.children[i], diagnostics);
        proof {
            let cs = node.children@.take(i + 1);
            assert(cs.drop_last() =~= node.children@.take(i as int));
            assert(cs.last() == node.children@[i as int]);
            let a = syntax_issues_list(node.children@.take(i as int));
            let b = syntax_issues(node.children@[i as int]);
            assert(syntax_issues_list(cs) == a + b);
            assert(diagnostics@.subrange(0, mid.len() as int) =~= mid) by {
                assert forall|k: int| 0 <= k < mid.len() implies diagnostics@[k] == mid[k] by {
                    assert(diagnostics@.subrange(0, cur.len() as int)[k] == cur[k]);
                    assert(cur.subrange(0, mid.len() as int)[k] == mid[k]);
                }
            }
            assert forall|k: int| 0 <= k < (a + b).len() implies reports_issue(#[trigger] diagnostics@[mid.len() + k], (a + b)[k]) by {
                if k < a.len() {
                    assert(diagnostics@.subrange(0, cur.len() as int)[mid.len() + k] == cur[mid.len() + k]);
                } else {
                    assert(diagnostics@[cur.len() + (k - a.len())] == diagnostics@[mid.len() + k]);
                }
            }
        }
        i = i + 1;
    }
    proof {
        assert(node.children@.take(node.children@.len() as int) =~= node.children@);
        let own = own_issue(*node);
        let rest = syntax_issues_list(node.children@);
        assert(syntax_issues(*node) == own + rest);
        assert(diagnostics@.subrange(0, before.len() as int) =~= before) by {
            assert forall|k: int| 0 <= k < before.len() implies diagnostics@[k] == before[k] by {
                assert(diagnostics@.subrange(0, mid.len() as int)[k] == mid[k]);
                assert(mid.subrange(0, before.len() as int)[k] == before[k]);
            }
        }
        assert forall|k: int| 0 <= k < (own + rest).len() implies reports_issue(#[trigger] diagnostics@[before.len() + k], (own + rest)[k]) by {
            if k < own.len() {
                assert(diagnostics@.subrange(0, mid.len() as int)[before.len() + k] == mid[before.len() + k]);
            } else {
                assert(diagnostics@[mid.len() + (k - own.len())] == diagnostics@[before.len() + k]);
            }
        }
    }
}

} // verus!
