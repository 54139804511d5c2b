//! Readers for node text and field values.

use vstd::prelude::*;

use crate::includes::{normalized_directive_value, normalized_value, value_kind_of, DirectiveValueKind};
use crate::syntax::{child_in_field, field_child, SyntaxNode};
use crate::workspace::bindings::opt_view;
use crate::workspace::resolve::strs;

verus! {

/// The text of `n` with the delimiters of a string node removed.
pub open spec fn norm_text(n: SyntaxNode) -> Seq<char> {
    normalized_value(n.text@, value_kind_of(n.kind@))
}

/// `s`, unless it is empty.
pub open spec fn nonempty(s: Seq<char>) -> Option<Seq<char>> {
    if s.len() == 0 {
        None
    } else {
        Some(s)
    }
}

/// The non-empty normalized text of the first child of `n` under `field`.
pub open spec fn nonempty_field(n: SyntaxNode, field: Seq<char>) -> Option<Seq<char>> {
    match field_child(n, field) {
        Some(c) => nonempty(norm_text(c)),
        None => None,
    }
}

/// Whether `c` sits under `field` and is not of kind `excluded`.
pub open spec fn selected(c: SyntaxNode, field: Seq<char>, excluded: Option<Seq<char>>) -> bool {
    child_in_field(c, field) && !(excluded matches Some(k) && c.kind@ == k)
}

/// The nodes of `cs` under `field` whose kind is not `excluded`, in order.
pub open spec fn field_nodes(cs: Seq<SyntaxNode>, field: Seq<char>, excluded: Option<Seq<char>>) -> Seq<SyntaxNode>
    decreases cs.len(),
{
    if cs.len() == 0 {
        Seq::empty()
    } else {
        let rest = field_nodes(cs.drop_last(), field, excluded);
        if selected(cs.last(), field, excluded) {
            rest.push(cs.last())
        } else {
            rest
        }
    }
}

/// The non-empty normalized texts of `cs`, in order.
pub open spec fn nonempty_texts(cs: Seq<SyntaxNode>) -> Seq<Seq<char>>
    decreases cs.len(),
{
    if cs.len() == 0 {
        Seq::empty()
    } else {
        let rest = nonempty_texts(cs.drop_last());
        if norm_text(cs.last()).len() == 0 {
            rest
        } else {
            rest.push(norm_text(cs.last()))
        }
    }
}

/// The non-empty normalized text of `cs[index]`, when it exists.
pub open spec fn nth_text(cs: Seq<SyntaxNode>, index: int) -> Option<Seq<char>> {
    if 0 <= index < cs.len() {
        nonempty(norm_text(cs[index]))
    } else {
        None
    }
}

/// The non-empty values of the `value` fields of `n`, in order.
pub open spec fn value_texts(n: SyntaxNode) -> Seq<Seq<char>> {
    nonempty_texts(field_nodes(n.children@, "value"@, None))
}

/// An optional borrowed string taken by its view.
pub open spec fn opt_str_view(o: Option<&str>) -> Option<Seq<char>> {
    match o {
        Some(s) => Some(s@),
        None => None,
    }
}

pub proof fn lemma_field_nodes_prefix(cs: Seq<SyntaxNode>, field: Seq<char>, excluded: Option<Seq<char>>, j: int)
    requires
        0 <= j <= cs.len(),
    ensures
        field_nodes(cs.take(j), field, excluded).len() <= field_nodes(cs, field, excluded).len(),
        forall|k: int|
            0 <= k < field_nodes(cs.take(j), field, excluded).len() ==> #[trigger] field_nodes(cs.take(j), field, excluded)[k]
                == field_nodes(cs, field, excluded)[k],
    decreases cs.len() - j,
{
    if j == cs.len() {
        assert(cs.take(j) =~= cs);
    } else {
        assert(cs.drop_last().take(j) =~= cs.take(j));
        lemma_field_nodes_prefix(cs.drop_last(), field, excluded, j);
    }
}

/// The text of `n` with the delimiters of a string node removed.
pub fn normalized_text(n: &SyntaxNode) -> (r: String)
    ensures
        r@ == norm_text(*n),
{
    let kind = DirectiveValueKind::from_node_kind(n.kind.as_str());
    normalized_directive_value(n.text.as_str(), &kind)
}

/// `text`, unless it is empty.
pub fn nonempty_text(text: String) -> (r: Option<String>)
    ensures
        opt_view(r) == nonempty(text@),
{
    if text.unicode_len() == 0 {
        None
    } else {
        Some(text)
    }
}

/// The normalized text of `n`, unless it is empty.
pub fn normalized_nonempty_text(n: &SyntaxNode) -> (r: Option<String>)
    ensures
        opt_view(r) == nonempty(norm_text(*n)),
{
    nonempty_text(normalized_text(n))
}

/// The non-empty normalized text of the first child of `n` under `field`.
pub fn normalized_nonempty_field(n: &SyntaxNode, field: &str) -> (r: Option<String>)
    ensures
        opt_view(r) == nonempty_field(*n, field@),
{
    match n.child_by_field_name(field) {
        Some(c) => normalized_nonempty_text(c),
        None => None,
    }
}

/// The non-empty normalized text of the `value` field of `n`.
pub fn metadata_value(n: &SyntaxNode) -> (r: Option<String>)
    ensures
        opt_view(r) == nonempty_field(*n, "value"@),
{
    normalized_nonempty_field(n, "value")
}

/// The non-empty normalized texts of every `value` field of `n`, in order.
pub fn metadata_values(n: &SyntaxNode) -> (r: Vec<String>)
    ensures
        strs(r@) == value_texts(*n),
{
    let ghost cs = n.children@;
    let ghost none: Option<Seq<char>> = None;
    let mut r: Vec<String> = Vec::new();
    let mut i: usize = 0;
    while i < n.children.len()
        invariant
            cs == n.children@,
            none is None,
            i <= cs.len(),
            strs(r@) == nonempty_texts(field_nodes(cs.take(i as int), "value"@, none)),
        decreases n.children.len() - i,
    {
        let c = &n.children[i];
        let ghost r0 = r@;
        proof {
            assert(cs.take(i + 1).drop_last() =~= cs.take(i as int));
            assert(cs.take(i + 1).last() == cs[i as int]);
            reveal_strlit("value");
        }
        let inf = c.in_field("value");
        assert(inf == selected(cs[i as int], "value"@, none));
        if inf {
            let t = normalized_text(c);
            if t.unicode_len() != 0 {
                r.push(t);
            }
        }
        proof {
            let fs = field_nodes(cs.take(i as int), "value"@, none);
            let fs1 = field_nodes(cs.take(i + 1), "value"@, none);
            if selected(cs[i as int], "value"@, none) {
                assert(fs1 == fs.push(cs[i as int]));
                assert(fs1.drop_last() =~= fs);
                assert(fs1.last() == cs[i as int]);
                if norm_text(cs[i as int]).len() != 0 {
                    assert(r@ == r0.push(r@.last()));
                    assert(strs(r@) =~= strs(r0).push(norm_text(cs[i as int])));
                } else {
                    assert(r@ == r0);
                }
            } else {
                assert(fs1 == fs);
                assert(r@ == r0);
            }
            assert(strs(r@) =~= nonempty_texts(fs1));
        }
        i = i + 1;
    }
    assert(cs.take(cs.len() as int) =~= cs);
    r
}

/// The non-empty normalized text of the `index`-th child of `n` under `field`, skipping
/// children of kind `excluded`.
pub fn nth_field_value(n: &SyntaxNode, field: &str, index: usize, excluded: Option<&str>) -> (r: Option<String>)
    ensures
        opt_view(r) == nth_text(field_nodes(n.children@, field@, opt_str_view(excluded)), index as int),
{
    let ghost cs = n.children@;
    let ghost ex = opt_str_view(excluded);
    let mut count: usize = 0;
    let mut i: usize = 0;
    while i < n.children.len()
        invariant
            cs == n.children@,
            ex == opt_str_view(excluded),
            i <= cs.len(),
            count == field_nodes(cs.take(i as int), field@, ex).len(),
            count <= index,
        decreases n.children.len() - i,
    {
        let c = &n.children[i];
        proof {
            assert(cs.take(i + 1).drop_last() =~= cs.take(i as int));
            assert(cs.take(i + 1).last() == cs[i as int]);
        }
        let skip = match excluded {
            Some(k) => c.has_kind(k),
            None => false,
        };
        if c.in_field(field) && !skip {
            proof {
                assert(selected(cs[i as int], field@, ex));
                lemma_field_nodes_prefix(cs, field@, ex, i + 1);
                assert(field_nodes(cs.take(i + 1), field@, ex)[count as int] == cs[i as int]);
            }
            if count == index {
                return normalized_nonempty_text(c);
            }
            count = count + 1;
        } else {
            assert(!selected(cs[i as int], field@, ex));
        }
        i = i + 1;
    }
    assert(cs.take(cs.len() as int) =~= cs);
    None
}

} // verus!
