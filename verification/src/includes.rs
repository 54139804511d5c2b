//! Directive value shapes, directive containers, and raw `!include` facts.

use vstd::prelude::*;

use crate::span::TextSpan;
use crate::text::{seq_ends_with, seq_starts_with};

verus! {

/// The concrete syntax form used for a directive or statement value.
#[derive(Debug, Clone, Copy, PartialEq, Eq, Structural, Hash)]
pub enum DirectiveValueKind {
    /// An `identifier` node.
    Identifier,
    /// A double-quoted `string` node.
    QuotedString,
    /// A triple-quoted `text_block_string` node.
    TextBlockString,
    /// Any other bare value node.
    BareValue,
}

/// The value kind for one syntax node kind.
pub open spec fn value_kind_of(node_kind: Seq<char>) -> DirectiveValueKind {
    if node_kind == "identifier"@ {
        DirectiveValueKind::Identifier
    } else if node_kind == "string"@ {
        DirectiveValueKind::QuotedString
    } else if node_kind == "text_block_string"@ {
        DirectiveValueKind::TextBlockString
    } else {
        DirectiveValueKind::BareValue
    }
}

impl DirectiveValueKind {
    /// Classifies a syntax node kind.
    pub fn from_node_kind(node_kind: &str) -> (r: Self)
        ensures
            r == value_kind_of(node_kind@),
    {
        if crate::text::str_eq(node_kind, "identifier") {
            DirectiveValueKind::Identifier
        } else if crate::text::str_eq(node_kind, "string") {
            DirectiveValueKind::QuotedString
        } else if crate::text::str_eq(node_kind, "text_block_string") {
            DirectiveValueKind::TextBlockString
        } else {
            DirectiveValueKind::BareValue
        }
    }

    /// Whether the value is an identifier or a bare value (a selector-style target).
    pub fn is_bare_or_identifier(self) -> (r: bool)
        ensures
            r == (self == DirectiveValueKind::BareValue || self == DirectiveValueKind::Identifier),
    {
        match self {
            DirectiveValueKind::BareValue | DirectiveValueKind::Identifier => true,
            _ => false,
        }
    }
}

/// The nearest supported block that encloses a directive.
#[derive(Debug, Clone, Copy, PartialEq, Eq, Structural, Hash)]
pub enum DirectiveContainer {
    /// The directive sits directly in the document.
    SourceFile,
    /// The directive sits inside a `workspace { ... }` block.
    Workspace,
    /// The directive sits inside a `model { ... }` block.
    Model,
}

/// The container for one enclosing block kind.
pub open spec fn container_of(kind: Seq<char>) -> DirectiveContainer {
    if kind == "workspace_block"@ {
        DirectiveContainer::Workspace
    } else if kind == "model_block"@ {
        DirectiveContainer::Model
    } else {
        DirectiveContainer::SourceFile
    }
}

/// Whether a node kind is one of the blocks that bound a directive's container.
pub open spec fn is_container_kind(kind: Seq<char>) -> bool {
    kind == "source_file"@ || kind == "workspace_block"@ || kind == "model_block"@
}

impl DirectiveContainer {
    /// Whether `kind` is one of the blocks that bound a directive's container.
    pub fn is_enclosing_kind(kind: &str) -> (r: bool)
        ensures
            r == is_container_kind(kind@),
    {
        crate::text::str_eq(kind, "source_file") || crate::text::str_eq(kind, "workspace_block")
            || crate::text::str_eq(kind, "model_block")
    }

    /// Maps an enclosing block kind to its container.
    pub fn from_enclosing_kind(kind: &str) -> (r: Self)
        ensures
            r == container_of(kind@),
    {
        if crate::text::str_eq(kind, "workspace_block") {
            DirectiveContainer::Workspace
        } else if crate::text::str_eq(kind, "model_block") {
            DirectiveContainer::Model
        } else {
            DirectiveContainer::SourceFile
        }
    }
}

/// One raw `!include` directive.
#[derive(Debug, PartialEq, Eq)]
pub struct IncludeDirective {
    /// The directive value exactly as written, including quotes.
    pub raw_value: String,
    /// The syntax form of the value.
    pub value_kind: DirectiveValueKind,
    /// Span of the whole directive.
    pub span: TextSpan,
    /// Span of the value node.
    pub value_span: TextSpan,
    /// Nearest supported enclosing block.
    pub container: DirectiveContainer,
}

impl Clone for IncludeDirective {
    fn clone(&self) -> (r: Self)
        ensures
            r == *self,
    {
        IncludeDirective {
            raw_value: self.raw_value.clone(),
            value_kind: self.value_kind,
            span: self.span,
            value_span: self.value_span,
            container: self.container,
        }
    }
}

/// `raw` with one surrounding `delimiter` removed from both ends, when both are present.
pub open spec fn strip_delimiters(raw: Seq<char>, delimiter: Seq<char>) -> Seq<char> {
    if seq_starts_with(raw, delimiter) && seq_ends_with(raw.skip(delimiter.len() as int), delimiter) {
        raw.subrange(delimiter.len() as int, raw.len() - delimiter.len())
    } else {
        raw
    }
}

/// The normalized text of a directive value: string delimiters removed.
pub open spec fn normalized_value(raw: Seq<char>, kind: DirectiveValueKind) -> Seq<char> {
    match kind {
        DirectiveValueKind::QuotedString => strip_delimiters(raw, "\""@),
        DirectiveValueKind::TextBlockString => strip_delimiters(raw, "\"\"\""@),
        _ => raw,
    }
}

/// Removes one surrounding `delimiter` from both ends of `raw` when both are present.
pub fn strip_surrounding_quotes(raw: &str, delimiter: &str) -> (r: String)
    ensures
        r@ == strip_delimiters(raw@, delimiter@),
{
    let rc = crate::text::chars_of(raw);
    let dc = crate::text::chars_of(delimiter);
    if !crate::text::starts_with(raw, delimiter) {
        return raw.to_owned();
    }
    let d = dc.len();
    let n = rc.len();
    let rest = crate::text::string_from_range(&rc, d, n);
    if !crate::text::ends_with(rest.as_str(), delimiter) {
        assert(rest@ =~= raw@.skip(d as int));
        return raw.to_owned();
    }
    assert(rest@ =~= raw@.skip(d as int));
    crate::text::string_from_range(&rc, d, n - d)
}

/// Normalizes a directive value by removing string delimiters.
pub fn normalized_directive_value(raw: &str, kind: &DirectiveValueKind) -> (r: String)
    ensures
        r@ == normalized_value(raw@, *kind),
{
    match kind {
        DirectiveValueKind::QuotedString => strip_surrounding_quotes(raw, "\""),
        DirectiveValueKind::TextBlockString => strip_surrounding_quotes(raw, "\"\"\""),
        _ => raw.to_owned(),
    }
}

} // verus!
