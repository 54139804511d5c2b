//! Symbol, reference, and identifier-mode facts.

use vstd::prelude::*;

use crate::includes::{DirectiveContainer, DirectiveValueKind};
use crate::span::TextSpan;
use crate::text::lower_seq;

verus! {

/// Stable index assigned to an extracted symbol within one document snapshot.
#[derive(Debug, Clone, Copy, PartialEq, Eq, Structural, Hash, PartialOrd, Ord)]
pub struct SymbolId(pub usize);

/// High-level declaration kinds extracted from Structurizr DSL nodes.
#[derive(Debug, Clone, Copy, PartialEq, Eq, Structural, Hash)]
pub enum SymbolKind {
    /// A `person` declaration.
    Person,
    /// A `softwareSystem` declaration.
    SoftwareSystem,
    /// A `container` declaration.
    Container,
    /// A `component` declaration.
    Component,
    /// A `deploymentEnvironment` declaration with a binding identifier.
    DeploymentEnvironment,
    /// A `deploymentNode` declaration with a binding identifier.
    DeploymentNode,
    /// An `infrastructureNode` declaration with a binding identifier.
    InfrastructureNode,
    /// A `containerInstance` declaration with a binding identifier.
    ContainerInstance,
    /// A `softwareSystemInstance` declaration with a binding identifier.
    SoftwareSystemInstance,
    /// A relationship declaration with its own identifier.
    Relationship,
}

/// Model-layer element kinds.
pub open spec fn is_element_kind(kind: SymbolKind) -> bool {
    kind == SymbolKind::Person || kind == SymbolKind::SoftwareSystem || kind == SymbolKind::Container
        || kind == SymbolKind::Component
}

/// Deployment-layer kinds.
pub open spec fn is_deployment_kind(kind: SymbolKind) -> bool {
    kind == SymbolKind::DeploymentEnvironment || kind == SymbolKind::DeploymentNode || kind
        == SymbolKind::InfrastructureNode || kind == SymbolKind::ContainerInstance || kind
        == SymbolKind::SoftwareSystemInstance
}

impl SymbolKind {
    /// Whether this is a model-layer element kind.
    pub fn is_element(self) -> (r: bool)
        ensures
            r == is_element_kind(self),
    {
        match self {
            SymbolKind::Person | SymbolKind::SoftwareSystem | SymbolKind::Container
            | SymbolKind::Component => true,
            _ => false,
        }
    }

    /// Whether this is a deployment-layer kind.
    pub fn is_deployment(self) -> (r: bool)
        ensures
            r == is_deployment_kind(self),
    {
        match self {
            SymbolKind::DeploymentEnvironment | SymbolKind::DeploymentNode
            | SymbolKind::InfrastructureNode | SymbolKind::ContainerInstance
            | SymbolKind::SoftwareSystemInstance => true,
            _ => false,
        }
    }
}

/// Describes one declaration symbol extracted from a document.
#[derive(Debug, PartialEq, Eq)]
pub struct Symbol {
    /// Snapshot-local identifier assigned during extraction.
    pub id: SymbolId,
    /// High-level kind of declaration that produced the symbol.
    pub kind: SymbolKind,
    /// User-facing display label inferred from the declaration.
    pub display_name: String,
    /// Bound identifier, if the declaration introduces one.
    pub binding_name: Option<String>,
    /// Span of the bound identifier token, if the declaration introduces one.
    pub binding_span: Option<TextSpan>,
    /// Source-derived description text.
    pub description: Option<String>,
    /// Source-derived technology text.
    pub technology: Option<String>,
    /// Source-derived tags collected from declaration headers and bodies.
    pub tags: Vec<String>,
    /// Source-derived URL text.
    pub url: Option<String>,
    /// Span of the full declaration node.
    pub span: TextSpan,
    /// Nearest enclosing declaration symbol, if one exists.
    pub parent: Option<SymbolId>,
    /// Exact syntax node kind that produced the symbol.
    pub syntax_node_kind: String,
}

/// Copies an optional string.
pub fn clone_opt_string(s: &Option<String>) -> (r: Option<String>)
    ensures
        r == *s,
{
    match s {
        Some(v) => Some(v.clone()),
        None => None,
    }
}

/// Copies a vector of strings.
pub fn clone_strings(v: &Vec<String>) -> (r: Vec<String>)
    ensures
        r@ == v@,
{
    let mut r: Vec<String> = Vec::new();
    let mut i: usize = 0;
    while i < v.len()
        invariant
            i <= v.len(),
            r@ == v@.subrange(0, i as int),
        decreases v.len() - i,
    {
        r.push(v[i].clone());
        i = i + 1;
    }
    assert(r@ =~= v@);
    r
}

impl Clone for Symbol {
    fn clone(&self) -> (r: Self)
        ensures
            r.id == self.id,
            r.kind == self.kind,
            r.display_name == self.display_name,
            r.binding_name == self.binding_name,
            r.binding_span == self.binding_span,
            r.description == self.description,
            r.technology == self.technology,
            r.tags@ == self.tags@,
            r.url == self.url,
            r.span == self.span,
            r.parent == self.parent,
            r.syntax_node_kind == self.syntax_node_kind,
    {
        Symbol {
            id: self.id,
            kind: self.kind,
            display_name: self.display_name.clone(),
            binding_name: clone_opt_string(&self.binding_name),
            binding_span: self.binding_span,
            description: clone_opt_string(&self.description),
            technology: clone_opt_string(&self.technology),
            tags: clone_strings(&self.tags),
            url: clone_opt_string(&self.url),
            span: self.span,
            parent: self.parent,
            syntax_node_kind: self.syntax_node_kind.clone(),
        }
    }
}

/// Categorizes how a reference is used at its source site.
#[derive(Debug, Clone, Copy, PartialEq, Eq, Structural, Hash)]
pub enum ReferenceKind {
    /// One dotted segment of an `!element` selector target.
    ElementSelectorTarget,
    /// Relationship source endpoint reference.
    RelationshipSource,
    /// Relationship destination endpoint reference.
    RelationshipDestination,
    /// A dynamic-view step that names a relationship binding.
    DynamicRelationshipReference,
    /// Instance target reference inside `containerInstance` / `softwareSystemInstance`.
    InstanceTarget,
    /// Deployment-layer relationship source endpoint reference.
    DeploymentRelationshipSource,
    /// Deployment-layer relationship destination endpoint reference.
    DeploymentRelationshipDestination,
    /// View scope reference for scoped views.
    ViewScope,
    /// `include` reference nested inside a view body.
    ViewInclude,
    /// `exclude` reference nested inside a view body.
    ViewExclude,
    /// Identifier-valued `animation` reference nested inside a view body.
    ViewAnimation,
}

/// Narrows which symbol kinds are valid targets for a reference.
#[derive(Debug, Clone, Copy, PartialEq, Eq, Structural, Hash)]
pub enum ReferenceTargetHint {
    /// The reference should resolve to an element symbol.
    Element,
    /// The reference may resolve to an element or a deployment-layer symbol.
    ElementOrDeployment,
    /// The reference should resolve to a deployment-layer symbol.
    Deployment,
    /// The reference should resolve to a relationship symbol.
    Relationship,
    /// The reference may resolve to either an element or relationship symbol.
    ElementOrRelationship,
}

/// Describes one raw symbol reference extracted from a document.
#[derive(Debug, PartialEq, Eq)]
pub struct Reference {
    /// The syntactic role the reference plays at its source site.
    pub kind: ReferenceKind,
    /// Original identifier text for the reference.
    pub raw_text: String,
    /// Span of the referenced identifier token.
    pub span: TextSpan,
    /// Expected category of symbol the reference should target.
    pub target_hint: ReferenceTargetHint,
    /// Exact syntax node kind that contains the reference.
    pub container_node_kind: String,
    /// Nearest extracted symbol that lexically contains this reference.
    pub containing_symbol: Option<SymbolId>,
}

impl Clone for Reference {
    fn clone(&self) -> (r: Self)
        ensures
            r == *self,
    {
        Reference {
            kind: self.kind,
            raw_text: self.raw_text.clone(),
            span: self.span,
            target_hint: self.target_hint,
            container_node_kind: self.container_node_kind.clone(),
            containing_symbol: self.containing_symbol,
        }
    }
}

/// Supported `!identifiers` directive modes.
#[derive(Debug, PartialEq, Eq)]
pub enum IdentifierMode {
    /// Flat identifiers such as `system`.
    Flat,
    /// Hierarchical identifiers such as `model.system`.
    Hierarchical,
    /// Any unrecognized raw mode string.
    Other(String),
}

impl Clone for IdentifierMode {
    fn clone(&self) -> (r: Self)
        ensures
            r == *self,
    {
        match self {
            IdentifierMode::Flat => IdentifierMode::Flat,
            IdentifierMode::Hierarchical => IdentifierMode::Hierarchical,
            IdentifierMode::Other(s) => IdentifierMode::Other(s.clone()),
        }
    }
}

impl IdentifierMode {
    /// Classifies a raw `!identifiers` value, ignoring ASCII case.
    pub fn from_raw(raw_value: &str) -> (r: Self)
        ensures
            (r is Flat) == (lower_seq(raw_value@) == "flat"@),
            (r is Hierarchical) == (lower_seq(raw_value@) == "hierarchical"@),
            r matches IdentifierMode::Other(s) ==> s@ == raw_value@,
    {
        proof {
            reveal_strlit("flat");
            reveal_strlit("hierarchical");
            assert("flat"@.len() != "hierarchical"@.len());
        }
        let lower = crate::text::to_ascii_lowercase(raw_value);
        if crate::text::str_eq(lower.as_str(), "flat") {
            IdentifierMode::Flat
        } else if crate::text::str_eq(lower.as_str(), "hierarchical") {
            IdentifierMode::Hierarchical
        } else {
            IdentifierMode::Other(raw_value.to_owned())
        }
    }
}

/// Captures one `!identifiers` directive and its parsed mode.
#[derive(Debug, PartialEq, Eq)]
pub struct IdentifierModeFact {
    /// Normalized mode classification for the directive value.
    pub mode: IdentifierMode,
    /// Original directive value text, including any surrounding quotes.
    pub raw_value: String,
    /// Concrete syntax form used for the directive value.
    pub value_kind: DirectiveValueKind,
    /// Span of the full `!identifiers` directive.
    pub span: TextSpan,
    /// Span of just the directive value node.
    pub value_span: TextSpan,
    /// Nearest supported enclosing block for the directive.
    pub container: DirectiveContainer,
}

impl Clone for IdentifierModeFact {
    fn clone(&self) -> (r: Self)
        ensures
            r == *self,
    {
        IdentifierModeFact {
            mode: self.mode.clone(),
            raw_value: self.raw_value.clone(),
            value_kind: self.value_kind,
            span: self.span,
            value_span: self.value_span,
            container: self.container,
        }
    }
}

} // verus!
