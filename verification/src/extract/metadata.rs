//! Hover metadata of declarations: description, technology, tags and URL.

use vstd::prelude::*;

use crate::extract::fields::{
    field_nodes, metadata_value, metadata_values, nonempty_field, normalized_nonempty_field, nth_field_value,
    nth_text, value_texts,
};
use crate::extract::tags::{extend_tags, extend_tags_all, extend_tags_each, extend_tags_spec};
use crate::syntax::{field_child, SyntaxNode};
use crate::workspace::bindings::opt_view;
use crate::workspace::resolve::strs;

verus! {

/// Metadata collected for one declaration.
#[derive(Debug)]
pub struct ExtractedSymbolMetadata {
    /// Description text.
    pub description: Option<String>,
    /// Technology text.
    pub technology: Option<String>,
    /// Tags, in order of first appearance, without repeats.
    pub tags: Vec<String>,
    /// URL text.
    pub url: Option<String>,
}

/// Metadata as plain values.
pub struct MetaModel {
    pub description: Option<Seq<char>>,
    pub technology: Option<Seq<char>>,
    pub tags: Seq<Seq<char>>,
    pub url: Option<Seq<char>>,
}

pub open spec fn meta_view(m: ExtractedSymbolMetadata) -> MetaModel {
    MetaModel {
        description: opt_view(m.description),
        technology: opt_view(m.technology),
        tags: strs(m.tags@),
        url: opt_view(m.url),
    }
}

pub open spec fn empty_meta() -> MetaModel {
    MetaModel { description: None, technology: None, tags: Seq::empty(), url: None }
}

/// `tags` extended by `raw` when there is one.
pub open spec fn opt_tags(tags: Seq<Seq<char>>, raw: Option<Seq<char>>) -> Seq<Seq<char>> {
    match raw {
        Some(t) => extend_tags_spec(tags, t),
        None => tags,
    }
}

/// `m` after one body statement `c`.
pub open spec fn body_step(m: MetaModel, c: SyntaxNode) -> MetaModel {
    if !c.is_named {
        m
    } else if c.kind@ == "description_statement"@ {
        MetaModel { description: nonempty_field(c, "value"@), ..m }
    } else if c.kind@ == "technology_statement"@ {
        MetaModel { technology: nonempty_field(c, "value"@), ..m }
    } else if c.kind@ == "tag_statement"@ {
        MetaModel { tags: opt_tags(m.tags, nonempty_field(c, "value"@)), ..m }
    } else if c.kind@ == "tags_statement"@ {
        MetaModel { tags: extend_tags_all(m.tags, value_texts(c)), ..m }
    } else if c.kind@ == "url_statement"@ {
        MetaModel { url: nonempty_field(c, "value"@), ..m }
    } else {
        m
    }
}

/// `m` after the statements `cs` of a body, in order.
pub open spec fn body_meta(m: MetaModel, cs: Seq<SyntaxNode>) -> MetaModel
    decreases cs.len(),
{
    if cs.len() == 0 {
        m
    } else {
        body_step(body_meta(m, cs.drop_last()), cs.last())
    }
}

/// `m` after the body of `n`, when `n` has one.
pub open spec fn with_body(m: MetaModel, n: SyntaxNode) -> MetaModel {
    match field_child(n, "body"@) {
        Some(b) => body_meta(m, b.children@),
        None => m,
    }
}

/// Metadata of a model element: header fields, then body statements.
pub open spec fn element_meta(n: SyntaxNode) -> MetaModel {
    with_body(
        MetaModel {
            description: nonempty_field(n, "description"@),
            technology: nonempty_field(n, "technology"@),
            tags: opt_tags(Seq::empty(), nonempty_field(n, "tags"@)),
            url: None,
        },
        n,
    )
}

/// Metadata of a relationship: the second and third `attribute` give technology and tags.
pub open spec fn relationship_meta(n: SyntaxNode) -> MetaModel {
    let a = field_nodes(n.children@, "attribute"@, None);
    with_body(
        MetaModel {
            description: None,
            technology: nth_text(a, 1),
            tags: opt_tags(Seq::empty(), nth_text(a, 2)),
            url: None,
        },
        n,
    )
}

/// Metadata of a deployment declaration: positional non-number attributes give description,
/// technology and tags.
pub open spec fn deployment_meta(n: SyntaxNode) -> MetaModel {
    let a = field_nodes(n.children@, "attribute"@, Some("number"@));
    with_body(
        MetaModel {
            description: nth_text(a, 0),
            technology: nth_text(a, 1),
            tags: opt_tags(Seq::empty(), nth_text(a, 2)),
            url: None,
        },
        n,
    )
}

/// Metadata of a deployment instance: header tags, then body statements.
pub open spec fn instance_meta(n: SyntaxNode) -> MetaModel {
    with_body(
        MetaModel { description: None, technology: None, tags: opt_tags(Seq::empty(), nonempty_field(n, "tags"@)), url: None },
        n,
    )
}

pub open spec fn is_element_decl_kind(k: Seq<char>) -> bool {
    k == "person"@ || k == "software_system"@ || k == "container"@ || k == "component"@ || k
        == "archetype_instance"@
}

pub open spec fn is_deployment_decl_kind(k: Seq<char>) -> bool {
    k == "deployment_environment"@ || k == "deployment_node"@ || k == "infrastructure_node"@
}

pub open spec fn is_instance_decl_kind(k: Seq<char>) -> bool {
    k == "container_instance"@ || k == "software_system_instance"@
}

/// Metadata of any declaration node, by its kind.
pub open spec fn declaration_meta(n: SyntaxNode) -> MetaModel {
    if is_element_decl_kind(n.kind@) {
        element_meta(n)
    } else if n.kind@ == "relationship"@ {
        relationship_meta(n)
    } else if is_deployment_decl_kind(n.kind@) {
        deployment_meta(n)
    } else if is_instance_decl_kind(n.kind@) {
        instance_meta(n)
    } else {
        empty_meta()
    }
}

impl ExtractedSymbolMetadata {
    /// Metadata with nothing set.
    pub fn empty() -> (r: Self)
        ensures
            meta_view(r) == empty_meta(),
    {
        let r = ExtractedSymbolMetadata { description: None, technology: None, tags: Vec::new(), url: None };
        assert(strs(r.tags@) =~= Seq::<Seq<char>>::empty());
        r
    }
}

fn add_optional_tags(tags: &mut Vec<String>, raw: Option<String>)
    ensures
        strs(final(tags)@) == opt_tags(strs(old(tags)@), opt_view(raw)),
{
    if let Some(t) = raw {
        extend_tags(tags, t.as_str());
    }
}

fn apply_body_statement(metadata: &mut ExtractedSymbolMetadata, c: &SyntaxNode)
    ensures
        meta_view(*final(metadata)) == body_step(meta_view(*old(metadata)), *c),
{
    if !c.is_named {
        return;
    }
    if c.has_kind("description_statement") {
        metadata.description = metadata_value(c);
    } else if c.has_kind("technology_statement") {
        metadata.technology = metadata_value(c);
    } else if c.has_kind("tag_statement") {
        let t = metadata_value(c);
        add_optional_tags(&mut metadata.tags, t);
    } else if c.has_kind("tags_statement") {
        let values = metadata_values(c);
        extend_tags_each(&mut metadata.tags, &values);
    } else if c.has_kind("url_statement") {
        metadata.url = metadata_value(c);
    }
}

/// Applies the metadata statements of a declaration body, in order.
pub fn apply_body_metadata(metadata: &mut ExtractedSymbolMetadata, body: &SyntaxNode)
    ensures
        meta_view(*final(metadata)) == body_meta(meta_view(*old(metadata)), body.children@),
{
    let ghost m0 = meta_view(*metadata);
    let mut i: usize = 0;
    while i < body.children.len()
        invariant
            i <= body.children.len(),
            m0 == meta_view(*old(metadata)),
            meta_view(*metadata) == body_meta(m0, body.children@.take(i as int)),
        decreases body.children.len() - i,
    {
        apply_body_statement(metadata, &body.children[i]);
        proof {
            assert(body.children@.take(i + 1).drop_last() =~= body.children@.take(i as int));
        }
        i = i + 1;
    }
    assert(body.children@.take(body.children.len() as int) =~= body.children@);
}

fn with_body_metadata(metadata: &mut ExtractedSymbolMetadata, n: &SyntaxNode)
    ensures
        meta_view(*final(metadata)) == with_body(meta_view(*old(metadata)), *n),
{
    if let Some(body) = n.child_by_field_name("body") {
        apply_body_metadata(metadata, body);
    }
}

/// Metadata of a model element declaration.
pub fn element_metadata(n: &SyntaxNode) -> (r: ExtractedSymbolMetadata)
    ensures
        meta_view(r) == element_meta(*n),
{
    let mut metadata = ExtractedSymbolMetadata {
        description: normalized_nonempty_field(n, "description"),
        technology: normalized_nonempty_field(n, "technology"),
        tags: Vec::new(),
        url: None,
    };
    assert(strs(metadata.tags@) =~= Seq::<Seq<char>>::empty());
    add_optional_tags(&mut metadata.tags, normalized_nonempty_field(n, "tags"));
    with_body_metadata(&mut metadata, n);
    metadata
}

/// Metadata of a relationship declaration.
pub fn relationship_metadata(n: &SyntaxNode) -> (r: ExtractedSymbolMetadata)
    ensures
        meta_view(r) == relationship_meta(*n),
{
    let mut metadata = ExtractedSymbolMetadata::empty();
    metadata.technology = nth_field_value(n, "attribute", 1, None);
    add_optional_tags(&mut metadata.tags, nth_field_value(n, "attribute", 2, None));
    with_body_metadata(&mut metadata, n);
    metadata
}

/// Metadata of a deployment environment, deployment node or infrastructure node.
pub fn deployment_metadata(n: &SyntaxNode) -> (r: ExtractedSymbolMetadata)
    ensures
        meta_view(r) == deployment_meta(*n),
{
    proof {
        reveal_strlit("number");
    }
    let mut metadata = ExtractedSymbolMetadata::empty();
    metadata.description = nth_field_value(n, "attribute", 0, Some("number"));
    metadata.technology = nth_field_value(n, "attribute", 1, Some("number"));
    add_optional_tags(&mut metadata.tags, nth_field_value(n, "attribute", 2, Some("number")));
    with_body_metadata(&mut metadata, n);
    metadata
}

/// Metadata of a container or software system instance.
pub fn instance_metadata(n: &SyntaxNode) -> (r: ExtractedSymbolMetadata)
    ensures
        meta_view(r) == instance_meta(*n),
{
    let mut metadata = ExtractedSymbolMetadata::empty();
    add_optional_tags(&mut metadata.tags, normalized_nonempty_field(n, "tags"));
    with_body_metadata(&mut metadata, n);
    metadata
}

/// Metadata of any declaration node, by its kind.
pub fn declaration_metadata(n: &SyntaxNode) -> (r: ExtractedSymbolMetadata)
    ensures
        meta_view(r) == declaration_meta(*n),
{
    if n.has_kind("person") || n.has_kind("software_system") || n.has_kind("container") || n.has_kind(
        "component",
    ) || n.has_kind("archetype_instance") {
        element_metadata(n)
    } else if n.has_kind("relationship") {
        relationship_metadata(n)
    } else if n.has_kind("deployment_environment") || n.has_kind("deployment_node") || n.has_kind(
        "infrastructure_node",
    ) {
        deployment_metadata(n)
    } else if n.has_kind("container_instance") || n.has_kind("software_system_instance") {
        instance_metadata(n)
    } else {
        ExtractedSymbolMetadata::empty()
    }
}

} // verus!
