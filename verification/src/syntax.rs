//! The library's own model of a parsed syntax tree.

use vstd::prelude::*;

use crate::span::TextSpan;

verus! {

/// One node of a parsed document, holding as plain values what the analysis reads.
#[derive(Debug, PartialEq, Eq)]
pub struct SyntaxNode {
    /// The grammar kind of the node, such as `person` or `identifier`.
    pub kind: String,
    /// The field name under which this node sits in its parent, if any.
    pub field_name: Option<String>,
    /// The exact source text covered by the node.
    pub text: String,
    /// Byte and point range covered by the node.
    pub span: TextSpan,
    /// Whether the node is a named grammar node (as opposed to punctuation).
    pub is_named: bool,
    /// Whether the parser produced this node while recovering from unexpected syntax.
    pub is_error: bool,
    /// Whether the parser synthesized this node for missing syntax.
    pub is_missing: bool,
    /// Every child node in source order.
    pub children: Vec<SyntaxNode>,
}

impl SyntaxNode {
    /// Whether this node's kind is `kind`.
    pub fn has_kind(&self, kind: &str) -> (r: bool)
        ensures
            r == (self.kind@ == kind@),
    {
        crate::text::str_eq(self.kind.as_str(), kind)
    }

    /// Whether this node sits under field `field`.
    pub fn in_field(&self, field: &str) -> (r: bool)
        ensures
            r == (self.field_name matches Some(f) && f@ == field@),
    {
        match &self.field_name {
            Some(f) => crate::text::str_eq(f.as_str(), field),
            None => false,
        }
    }

    /// The first child under field `field`.
    pub fn child_by_field_name(&self, field: &str) -> (r: Option<&SyntaxNode>)
        ensures
            r is None <==> first_in_field(self.children@, field@) == self.children@.len(),
            r matches Some(c) ==> first_in_field(self.children@, field@) < self.children@.len()
                && *c == self.children@[first_in_field(self.children@, field@) as int],
    {
        let mut i: usize = 0;
        while i < self.children.len()
            invariant
                i <= self.children.len(),
                forall|j: int| 0 <= j < i ==> !child_in_field(#[trigger] self.children@[j], field@),
            decreases self.children.len() - i,
        {
            if self.children[i].in_field(field) {
                proof {
                    lemma_first_in_field_is(self.children@, field@, i as int);
                }
                return Some(&self.children[i]);
            }
            i = i + 1;
        }
        proof {
            lemma_first_in_field_none(self.children@, field@);
        }
        None
    }
}

/// Whether `c` sits under field `field`.
pub open spec fn child_in_field(c: SyntaxNode, field: Seq<char>) -> bool {
    c.field_name matches Some(f) && f@ == field
}

/// Index of the first node of `cs` under field `field`, or `cs.len()` when none is.
pub open spec fn first_in_field(cs: Seq<SyntaxNode>, field: Seq<char>) -> nat
    decreases cs.len(),
{
    if cs.len() == 0 {
        0
    } else if child_in_field(cs[0], field) {
        0
    } else {
        1 + first_in_field(cs.drop_first(), field)
    }
}

pub proof fn lemma_first_in_field_is(cs: Seq<SyntaxNode>, field: Seq<char>, i: int)
    requires
        0 <= i < cs.len(),
        child_in_field(cs[i], field),
        forall|j: int| 0 <= j < i ==> !child_in_field(#[trigger] cs[j], field),
    ensures
        first_in_field(cs, field) == i,
    decreases i,
{
    if i > 0 {
        assert forall|j: int| 0 <= j < i - 1 implies !child_in_field(#[trigger] cs.drop_first()[j], field) by {
            assert(cs.drop_first()[j] == cs[j + 1]);
        }
        lemma_first_in_field_is(cs.drop_first(), field, i - 1);
    }
}

pub proof fn lemma_first_in_field_none(cs: Seq<SyntaxNode>, field: Seq<char>)
    requires
        forall|j: int| 0 <= j < cs.len() ==> !child_in_field(#[trigger] cs[j], field),
    ensures
        first_in_field(cs, field) == cs.len(),
    decreases cs.len(),
{
    if cs.len() > 0 {
        assert forall|j: int| 0 <= j < cs.len() - 1 implies !child_in_field(#[trigger] cs.drop_first()[j], field) by {
            assert(cs.drop_first()[j] == cs[j + 1]);
        }
        lemma_first_in_field_none(cs.drop_first(), field);
    }
}

/// The optional child of `n` under `field`.
pub open spec fn field_child(n: SyntaxNode, field: Seq<char>) -> Option<SyntaxNode> {
    let i = first_in_field(n.children@, field);
    if i < n.children@.len() {
        Some(n.children@[i as int])
    } else {
        None
    }
}

} // verus!
