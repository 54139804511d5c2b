//! Shared descriptions of syntax sites that carry explicit tag values.

use vstd::prelude::*;

use crate::text::str_eq;

verus! {

/// Shared description of one syntax surface that can carry explicit tags.
#[derive(Clone, Copy, Debug, PartialEq, Eq)]
pub enum TagSurface {
    /// A `tag ...` body statement that contributes one tag value.
    TagStatement,
    /// A `tags ...` body statement that contributes one or more tag values.
    TagsStatement,
    /// A node whose tag value lives in one named field.
    NamedField {
        /// The field name containing the tag value.
        field_name: &'static str,
        /// Whether the surface uses one comma-delimited tag string.
        comma_separated: bool,
    },
    /// A node whose tag value lives in one positional field occurrence.
    IndexedField {
        /// The repeated field name containing positional metadata.
        field_name: &'static str,
        /// The zero-based occurrence index containing the tag value.
        index: usize,
        /// An optional child kind to ignore before selecting the indexed field.
        excluded_kind: Option<&'static str>,
        /// Whether the surface uses one comma-delimited tag string.
        comma_separated: bool,
    },
}

/// Node kinds whose `tags` field holds a comma-separated tag list.
pub open spec fn has_named_tags_field(k: Seq<char>) -> bool {
    k == "person"@ || k == "software_system"@ || k == "container"@ || k == "component"@ || k
        == "software_system_instance"@ || k == "container_instance"@ || k == "instance_of"@ || k
        == "filtered_view"@
}

/// The tag surface of one node kind.
pub open spec fn tag_surface_of(k: Seq<char>) -> Option<TagSurface> {
    if k == "tag_statement"@ {
        Some(TagSurface::TagStatement)
    } else if k == "tags_statement"@ {
        Some(TagSurface::TagsStatement)
    } else if has_named_tags_field(k) {
        Some(TagSurface::NamedField { field_name: "tags", comma_separated: true })
    } else if k == "element_style"@ || k == "relationship_style"@ {
        Some(TagSurface::NamedField { field_name: "tag", comma_separated: false })
    } else if k == "relationship"@ || k == "custom_element"@ {
        Some(
            TagSurface::IndexedField {
                field_name: "attribute",
                index: 2,
                excluded_kind: None,
                comma_separated: true,
            },
        )
    } else if k == "deployment_node"@ || k == "infrastructure_node"@ {
        Some(
            TagSurface::IndexedField {
                field_name: "attribute",
                index: 2,
                excluded_kind: Some("number"),
                comma_separated: true,
            },
        )
    } else if k == "archetype_instance"@ {
        Some(
            TagSurface::IndexedField {
                field_name: "metadata",
                index: 2,
                excluded_kind: None,
                comma_separated: true,
            },
        )
    } else {
        None
    }
}

fn is_named_tags_kind(k: &str) -> (r: bool)
    ensures
        r == has_named_tags_field(k@),
{
    str_eq(k, "person") || str_eq(k, "software_system") || str_eq(k, "container") || str_eq(
        k,
        "component",
    ) || str_eq(k, "software_system_instance") || str_eq(k, "container_instance") || str_eq(
        k,
        "instance_of",
    ) || str_eq(k, "filtered_view")
}

/// Returns the shared tag-surface description for one syntax node kind.
pub fn tag_surface_for_node_kind(node_kind: &str) -> (r: Option<TagSurface>)
    ensures
        r == tag_surface_of(node_kind@),
{
    if str_eq(node_kind, "tag_statement") {
        Some(TagSurface::TagStatement)
    } else if str_eq(node_kind, "tags_statement") {
        Some(TagSurface::TagsStatement)
    } else if is_named_tags_kind(node_kind) {
        Some(TagSurface::NamedField { field_name: "tags", comma_separated: true })
    } else if str_eq(node_kind, "element_style") || str_eq(node_kind, "relationship_style") {
        Some(TagSurface::NamedField { field_name: "tag", comma_separated: false })
    } else if str_eq(node_kind, "relationship") || str_eq(node_kind, "custom_element") {
        Some(
            TagSurface::IndexedField {
                field_name: "attribute",
                index: 2,
                excluded_kind: None,
                comma_separated: true,
            },
        )
    } else if str_eq(node_kind, "deployment_node") || str_eq(node_kind, "infrastructure_node") {
        Some(
            TagSurface::IndexedField {
                field_name: "attribute",
                index: 2,
                excluded_kind: Some("number"),
                comma_separated: true,
            },
        )
    } else if str_eq(node_kind, "archetype_instance") {
        Some(
            TagSurface::IndexedField {
                field_name: "metadata",
                index: 2,
                excluded_kind: None,
                comma_separated: true,
            },
        )
    } else {
        None
    }
}

} // verus!
