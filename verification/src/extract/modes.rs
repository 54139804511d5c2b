//! `!identifiers` directives and the explicit tags of a document.

use vstd::prelude::*;

use crate::extract::fields::{
    field_nodes, metadata_value, metadata_values, nonempty_field, norm_text, normalized_nonempty_field,
    normalized_text, nth_field_value, nth_text, opt_str_view, value_texts,
};
use crate::extract::metadata::opt_tags;
use crate::extract::tags::{extend_tags, extend_tags_all, extend_tags_each};
use crate::includes::{container_of, is_container_kind, value_kind_of, DirectiveContainer, DirectiveValueKind};
use crate::symbols::{IdentifierMode, IdentifierModeFact};
use crate::syntax::{field_child, SyntaxNode};
use crate::tag_surfaces::{tag_surface_for_node_kind, tag_surface_of, TagSurface};
use crate::text::lower_seq;
use crate::workspace::bindings::opt_view;
use crate::workspace::resolve::strs;

verus! {

/// One `!identifiers` directive: the directive node, its value node, and its container.
pub type ModeSite = (SyntaxNode, SyntaxNode, DirectiveContainer);

/// The container of the nodes directly below a node of kind `k`, given the container of
/// that node.
pub open spec fn container_below(k: Seq<char>, container: DirectiveContainer) -> DirectiveContainer {
    if is_container_kind(k) {
        container_of(k)
    } else {
        container
    }
}

/// The directive `n` states itself, when it is an `!identifiers` directive with a value.
pub open spec fn own_mode_site(n: SyntaxNode, container: DirectiveContainer) -> Seq<ModeSite> {
    if n.kind@ == "identifiers_directive"@ {
        match field_child(n, "value"@) {
            Some(v) => seq![(n, v, container)],
            None => Seq::empty(),
        }
    } else {
        Seq::empty()
    }
}

/// Every `!identifiers` directive in the subtree rooted at `n`, in pre-order; `container` is
/// the nearest enclosing source file, workspace or model block strictly above `n`.
pub open spec fn mode_sites(n: SyntaxNode, container: DirectiveContainer) -> Seq<ModeSite>
    decreases n,
{
    own_mode_site(n, container) + mode_sites_list(n.children@, container_below(n.kind@, container))
}

pub open spec fn mode_sites_list(cs: Seq<SyntaxNode>, container: DirectiveContainer) -> Seq<ModeSite>
    decreases cs,
{
    if cs.len() == 0 {
        Seq::empty()
    } else {
        mode_sites_list(cs.drop_last(), container) + mode_sites(cs.last(), container)
    }
}

/// Whether `f` is the fact of directive site `s`.
pub open spec fn describes_site(f: IdentifierModeFact, s: ModeSite) -> bool {
    let (n, v, container) = s;
    let norm = lower_seq(norm_text(v));
    &&& (f.mode is Flat) == (norm == "flat"@)
    &&& (f.mode is Hierarchical) == (norm == "hierarchical"@)
    &&& (f.mode matches IdentifierMode::Other(o) ==> o@ == norm_text(v))
    &&& f.raw_value@ == v.text@
    &&& f.value_kind == value_kind_of(v.kind@)
    &&& f.span == n.span
    &&& f.value_span == v.span
    &&& f.container == container
}

/// Whether `out` is `before` followed by one fact per site of `sites`.
pub open spec fn extends_with_sites(out: Seq<IdentifierModeFact>, before: Seq<IdentifierModeFact>, sites: Seq<ModeSite>) -> bool {
    &&& out.len() == before.len() + sites.len()
    &&& out.subrange(0, before.len() as int) == before
    &&& forall|k: int| 0 <= k < sites.len() ==> describes_site(#[trigger] out[before.len() + k], sites[k])
}

proof fn lemma_extends_chain(a: Seq<IdentifierModeFact>, b: Seq<IdentifierModeFact>, c: Seq<IdentifierModeFact>, x: Seq<ModeSite>, y: Seq<ModeSite>)
    requires
        extends_with_sites(b, a, x),
        extends_with_sites(c, b, y),
    ensures
        extends_with_sites(c, a, x + y),
{
    assert(c.subrange(0, a.len() as int) =~= a) by {
        assert forall|k: int| 0 <= k < a.len() implies c[k] == a[k] by {
            assert(c.subrange(0, b.len() as int)[k] == b[k]);
            assert(b.subrange(0, a.len() as int)[k] == a[k]);
        }
    }
    assert forall|k: int| 0 <= k < (x + y).len() implies describes_site(#[trigger] c[a.len() + k], (x + y)[k]) by {
        if k < x.len() {
            assert(c.subrange(0, b.len() as int)[a.len() + k] == b[a.len() + k]);
        } else {
            assert(c[b.len() + (k - x.len())] == c[a.len() + k]);
        }
    }
}

fn collect_modes_from_node(node: &SyntaxNode, container: DirectiveContainer, facts: &mut Vec<IdentifierModeFact>)
    ensures
        extends_with_sites(final(facts)@, old(facts)@, mode_sites(*node, container)),
    decreases node,
{
    let ghost before = facts@;
    if node.has_kind("identifiers_directive") {
        if let Some(v) = node.child_by_field_name("value") {
            let value = normalized_text(v);
            let fact = IdentifierModeFact {
                mode: IdentifierMode::from_raw(value.as_str()),
                raw_value: v.text.clone(),
                value_kind: DirectiveValueKind::from_node_kind(v.kind.as_str()),
                span: node.span,
                value_span: v.span,
                container,
            };
            let ghost g = fact;
            facts.push(fact);
            assert(facts@[before.len() as int] == g);
        }
    }
    proof {
        assert(facts@.subrange(0, before.len() as int) =~= before);
        assert(extends_with_sites(facts@, before, own_mode_site(*node, container)));
    }
    let ghost mid = facts@;
    let below = if crate::includes::DirectiveContainer::is_enclosing_kind(node.kind.as_str()) {
        DirectiveContainer::from_enclosing_kind(node.kind.as_str())
    } else {
        container
    };
    proof {
        assert(node.children@.take(0) =~= Seq::<SyntaxNode>::empty());
        assert(facts@.subrange(0, mid.len() as int) =~= mid);
    }
    let mut i: usize = 0;
    while i < node.children.len()
        invariant
            i <= node.children.len(),
            below == container_below(node.kind@, container),
            extends_with_sites(mid, before, own_mode_site(*node, container)),
            extends_with_sites(facts@, mid, mode_sites_list(node.children@.take(i as int), below)),
        decreases node.children.len() - i,
    {
        let ghost cur = facts@;
        collect_modes_from_node(&node.children[i], below, facts);
        proof {
            let cs = node.children@.take(i + 1);
            assert(cs.drop_last() =~= node.children@.take(i as int));
            assert(cs.last() == node.children@[i as int]);
            lemma_extends_chain(
                mid,
                cur,
                facts@,
                mode_sites_list(node.children@.take(i as int), below),
                mode_sites(node.children@[i as int], below),
            );
        }
        i = i + 1;
    }
    proof {
        assert(node.children@.take(node.children@.len() as int) =~= node.children@);
        lemma_extends_chain(before, mid, facts@, own_mode_site(*node, container), mode_sites_list(node.children@, below));
    }
}

/// Every `!identifiers` directive of the tree rooted at `root`, in pre-order, each with the
/// nearest enclosing source file, workspace or model block.
pub fn collect_identifier_modes(root: &SyntaxNode) -> (r: Vec<IdentifierModeFact>)
    ensures
        r@.len() == mode_sites(*root, DirectiveContainer::SourceFile).len(),
        forall|k: int|
            0 <= k < r@.len() ==> describes_site(#[trigger] r@[k], mode_sites(*root, DirectiveContainer::SourceFile)[k]),
{
    let mut facts: Vec<IdentifierModeFact> = Vec::new();
    collect_modes_from_node(root, DirectiveContainer::SourceFile, &mut facts);
    assert forall|k: int|
        0 <= k < facts@.len() implies describes_site(#[trigger] facts@[k], mode_sites(*root, DirectiveContainer::SourceFile)[k]) by {
        assert(facts@[0 + k] == facts@[k]);
    }
    facts
}

/// `tags` after the tag surface of node `n`.
pub open spec fn surface_tags(n: SyntaxNode, tags: Seq<Seq<char>>) -> Seq<Seq<char>> {
    match tag_surface_of(n.kind@) {
        Some(TagSurface::TagStatement) => opt_tags(tags, nonempty_field(n, "value"@)),
        Some(TagSurface::TagsStatement) => extend_tags_all(tags, value_texts(n)),
        Some(TagSurface::NamedField { field_name, .. }) => opt_tags(tags, nonempty_field(n, field_name@)),
        Some(TagSurface::IndexedField { field_name, index, excluded_kind, .. }) => opt_tags(
            tags,
            nth_text(field_nodes(n.children@, field_name@, opt_str_view(excluded_kind)), index as int),
        ),
        None => tags,
    }
}

/// `tags` after every tag surface of the subtree rooted at `n`, in pre-order over named nodes.
pub open spec fn tree_tags(n: SyntaxNode, tags: Seq<Seq<char>>) -> Seq<Seq<char>>
    decreases n,
{
    tree_tags_list(n.children@, surface_tags(n, tags))
}

pub open spec fn tree_tags_list(cs: Seq<SyntaxNode>, tags: Seq<Seq<char>>) -> Seq<Seq<char>>
    decreases cs,
{
    if cs.len() == 0 {
        tags
    } else if cs.last().is_named {
        tree_tags(cs.last(), tree_tags_list(cs.drop_last(), tags))
    } else {
        tree_tags_list(cs.drop_last(), tags)
    }
}

fn add_optional_tags(tags: &mut Vec<String>, raw: Option<String>)
    ensures
        strs(final(tags)@) == opt_tags(strs(old(tags)@), opt_view(raw)),
{
    if let Some(t) = raw {
        extend_tags(tags, t.as_str());
    }
}

fn collect_tags_from_surface(node: &SyntaxNode, surface: TagSurface, tags: &mut Vec<String>)
    requires
        tag_surface_of(node.kind@) == Some(surface),
    ensures
        strs(final(tags)@) == surface_tags(*node, strs(old(tags)@)),
{
    match surface {
        TagSurface::TagStatement => {
            add_optional_tags(tags, metadata_value(node));
        },
        TagSurface::TagsStatement => {
            let values = metadata_values(node);
            extend_tags_each(tags, &values);
        },
        TagSurface::NamedField { field_name, .. } => {
            add_optional_tags(tags, normalized_nonempty_field(node, field_name));
        },
        TagSurface::IndexedField { field_name, index, excluded_kind, .. } => {
            add_optional_tags(tags, nth_field_value(node, field_name, index, excluded_kind));
        },
    }
}

fn collect_tags_from_node(node: &SyntaxNode, tags: &mut Vec<String>)
    ensures
        strs(final(tags)@) == tree_tags(*node, strs(old(tags)@)),
    decreases node,
{
    if let Some(surface) = tag_surface_for_node_kind(node.kind.as_str()) {
        collect_tags_from_surface(node, surface, tags);
    }
    let ghost t1 = strs(tags@);
    let mut i: usize = 0;
    while i < node.children.len()
        invariant
            i <= node.children.len(),
            t1 == surface_tags(*node, strs(old(tags)@)),
            strs(tags@) == tree_tags_list(node.children@.take(i as int), t1),
        decreases node.children.len() - i,
    {
        let c = &node.children[i];
        if c.is_named {
            collect_tags_from_node(c, tags);
        }
        proof {
            assert(node.children@.take(i + 1).drop_last() =~= node.children@.take(i as int));
        }
        i = i + 1;
    }
    assert(node.children@.take(node.children.len() as int) =~= node.children@);
}

/// Every explicit tag of the tree rooted at `root`, in order of first appearance, without
/// repeats.
pub fn collect_tags(root: &SyntaxNode) -> (r: Vec<String>)
    ensures
        strs(r@) == tree_tags(*root, Seq::empty()),
{
    let mut tags: Vec<String> = Vec::new();
    assert(strs(tags@) =~= Seq::<Seq<char>>::empty());
    collect_tags_from_node(root, &mut tags);
    tags
}

} // verus!
