//! Higher-level syntax-backed facts used by the semantic validators.

use vstd::prelude::*;

use crate::includes::{normalized_directive_value, normalized_value, DirectiveValueKind};
use crate::span::TextSpan;
use crate::symbols::clone_opt_string;
use crate::text::lower_seq;

verus! {

/// One extracted syntax value plus its normalized text.
#[derive(Debug, PartialEq, Eq)]
pub struct ValueFact {
    /// Original source text for the value, including any surrounding quotes.
    pub raw_text: String,
    /// Normalized text with string delimiters removed when applicable.
    pub normalized_text: String,
    /// Concrete syntax form that produced this value.
    pub value_kind: DirectiveValueKind,
    /// Source span covered by the value node.
    pub span: TextSpan,
}

impl Clone for ValueFact {
    fn clone(&self) -> (r: Self)
        ensures
            r == *self,
    {
        ValueFact {
            raw_text: self.raw_text.clone(),
            normalized_text: self.normalized_text.clone(),
            value_kind: self.value_kind,
            span: self.span,
        }
    }
}

impl ValueFact {
    /// Builds a value fact, normalizing the raw text for its value kind.
    pub fn new(raw_text: String, value_kind: DirectiveValueKind, span: TextSpan) -> (r: Self)
        ensures
            r.raw_text == raw_text,
            r.normalized_text@ == normalized_value(raw_text@, value_kind),
            r.value_kind == value_kind,
            r.span == span,
    {
        let normalized_text = normalized_directive_value(raw_text.as_str(), &value_kind);
        ValueFact { raw_text, normalized_text, value_kind, span }
    }
}

/// Copies an optional value fact.
pub fn clone_opt_value(v: &Option<ValueFact>) -> (r: Option<ValueFact>)
    ensures
        r == *v,
{
    match v {
        Some(x) => Some(x.clone()),
        None => None,
    }
}

/// Top-level workspace section kinds that later validation cares about.
#[derive(Debug, Clone, Copy, PartialEq, Eq, Structural)]
pub enum WorkspaceSectionKind {
    /// A `model { ... }` section.
    Model,
    /// A `views { ... }` section.
    Views,
    /// A `configuration { ... }` section.
    Configuration,
}

/// One top-level section occurrence in the current document.
#[derive(Debug, Clone, Copy, PartialEq, Eq, Structural)]
pub struct WorkspaceSectionFact {
    /// The kind of top-level section that appeared.
    pub kind: WorkspaceSectionKind,
    /// Source span covered by the section node.
    pub span: TextSpan,
}

/// Normalized workspace-scope values extracted from configuration.
#[derive(Debug, PartialEq, Eq)]
pub enum WorkspaceScope {
    /// The workspace is landscape-scoped.
    Landscape,
    /// The workspace is software-system-scoped.
    SoftwareSystem,
    /// The workspace is container-scoped.
    Container,
    /// The workspace is component-scoped.
    Component,
    /// Any other raw scope value.
    Other(String),
}

impl Clone for WorkspaceScope {
    fn clone(&self) -> (r: Self)
        ensures
            r == *self,
    {
        match self {
            WorkspaceScope::Landscape => WorkspaceScope::Landscape,
            WorkspaceScope::SoftwareSystem => WorkspaceScope::SoftwareSystem,
            WorkspaceScope::Container => WorkspaceScope::Container,
            WorkspaceScope::Component => WorkspaceScope::Component,
            WorkspaceScope::Other(s) => WorkspaceScope::Other(s.clone()),
        }
    }
}

impl WorkspaceScope {
    /// Classifies a raw scope value, ignoring ASCII case.
    pub fn from_raw(raw: &str) -> (r: Self)
        ensures
            (r is Landscape) == (lower_seq(raw@) == "landscape"@),
            (r is SoftwareSystem) == (lower_seq(raw@) == "softwaresystem"@),
            (r is Container) == (lower_seq(raw@) == "container"@),
            (r is Component) == (lower_seq(raw@) == "component"@),
            r matches WorkspaceScope::Other(s) ==> s@ == raw@,
    {
        proof {
            reveal_strlit("landscape");
            reveal_strlit("softwaresystem");
            reveal_strlit("container");
            reveal_strlit("component");
            assert("landscape"@.len() != "softwaresystem"@.len());
            assert("landscape"@[0] != "container"@[0]);
            assert("landscape"@[0] != "component"@[0]);
            assert("softwaresystem"@.len() != "container"@.len());
            assert("softwaresystem"@.len() != "component"@.len());
            assert("container"@[2] != "component"@[2]);
        }
        let lower = crate::text::to_ascii_lowercase(raw);
        if crate::text::str_eq(lower.as_str(), "landscape") {
            WorkspaceScope::Landscape
        } else if crate::text::str_eq(lower.as_str(), "softwaresystem") {
            WorkspaceScope::SoftwareSystem
        } else if crate::text::str_eq(lower.as_str(), "container") {
            WorkspaceScope::Container
        } else if crate::text::str_eq(lower.as_str(), "component") {
            WorkspaceScope::Component
        } else {
            WorkspaceScope::Other(raw.to_owned())
        }
    }
}

/// One `configuration { scope ... }` statement.
#[derive(Debug, PartialEq, Eq)]
pub struct ConfigurationScopeFact {
    /// Normalized scope classification.
    pub scope: WorkspaceScope,
    /// Original scope value and its source span.
    pub value: ValueFact,
    /// Source span covered by the whole `scope` statement.
    pub span: TextSpan,
}

impl Clone for ConfigurationScopeFact {
    fn clone(&self) -> (r: Self)
        ensures
            r == *self,
    {
        ConfigurationScopeFact { scope: self.scope.clone(), value: self.value.clone(), span: self.span }
    }
}

/// One `properties { ... }` entry plus its owning block kind.
#[derive(Debug, PartialEq, Eq)]
pub struct PropertyFact {
    /// Extracted property name.
    pub name: ValueFact,
    /// Extracted property value.
    pub value: ValueFact,
    /// Source span covered by the whole property entry.
    pub span: TextSpan,
    /// Nearest enclosing owner node kind, such as `views_block`.
    pub container_node_kind: String,
}

impl Clone for PropertyFact {
    fn clone(&self) -> (r: Self)
        ensures
            r == *self,
    {
        PropertyFact {
            name: self.name.clone(),
            value: self.value.clone(),
            span: self.span,
            container_node_kind: self.container_node_kind.clone(),
        }
    }
}

/// File-backed directive kinds that later resource validation cares about.
#[derive(Debug, Clone, Copy, PartialEq, Eq, Structural)]
pub enum ResourceDirectiveKind {
    /// A `!docs` directive.
    Docs,
    /// A `!adrs` directive.
    Adrs,
}

/// One `!docs` or `!adrs` directive.
#[derive(Debug, PartialEq, Eq)]
pub struct ResourceDirectiveFact {
    /// The directive family.
    pub kind: ResourceDirectiveKind,
    /// Extracted filesystem-like path value.
    pub path: ValueFact,
    /// Optional importer value attached to the directive.
    pub importer: Option<ValueFact>,
    /// Source span covered by the whole directive.
    pub span: TextSpan,
    /// Nearest enclosing owner node kind, such as `workspace_block`.
    pub container_node_kind: String,
}

impl Clone for ResourceDirectiveFact {
    fn clone(&self) -> (r: Self)
        ensures
            r == *self,
    {
        ResourceDirectiveFact {
            kind: self.kind,
            path: self.path.clone(),
            importer: clone_opt_value(&self.importer),
            span: self.span,
            container_node_kind: self.container_node_kind.clone(),
        }
    }
}

/// One `!element` directive target.
#[derive(Debug, PartialEq, Eq)]
pub struct ElementDirectiveFact {
    /// Extracted selector or identifier target.
    pub target: ValueFact,
    /// Source span covered by the whole directive.
    pub span: TextSpan,
    /// Nearest enclosing owner node kind, such as `model_block`.
    pub container_node_kind: String,
}

impl Clone for ElementDirectiveFact {
    fn clone(&self) -> (r: Self)
        ensures
            r == *self,
    {
        ElementDirectiveFact {
            target: self.target.clone(),
            span: self.span,
            container_node_kind: self.container_node_kind.clone(),
        }
    }
}

/// Supported view-definition families.
#[derive(Debug, Clone, Copy, PartialEq, Eq, Structural)]
pub enum ViewKind {
    /// A `systemLandscape` view.
    SystemLandscape,
    /// A `systemContext` view.
    SystemContext,
    /// A `container` view.
    Container,
    /// A `component` view.
    Component,
    /// A `filtered` view.
    Filtered,
    /// A `dynamic` view.
    Dynamic,
    /// A `deployment` view.
    Deployment,
    /// A `custom` view.
    Custom,
    /// An `image` view.
    Image,
}

/// One `autoLayout` statement captured from a view body.
#[derive(Debug, PartialEq, Eq)]
pub struct AutoLayoutFact {
    /// Source span covered by the whole `autoLayout` statement.
    pub span: TextSpan,
    /// Optional explicit layout direction.
    pub direction: Option<String>,
    /// Optional explicit rank separation.
    pub rank_separation: Option<String>,
    /// Optional explicit node separation.
    pub node_separation: Option<String>,
}

impl Clone for AutoLayoutFact {
    fn clone(&self) -> (r: Self)
        ensures
            r == *self,
    {
        AutoLayoutFact {
            span: self.span,
            direction: clone_opt_string(&self.direction),
            rank_separation: clone_opt_string(&self.rank_separation),
            node_separation: clone_opt_string(&self.node_separation),
        }
    }
}

/// One declared model or deployment relationship.
#[derive(Debug, PartialEq, Eq)]
pub struct RelationshipFact {
    /// Source span covered by the whole relationship declaration.
    pub span: TextSpan,
    /// Source endpoint identifier; absent for nested relationships that start at their owner.
    pub source: Option<ValueFact>,
    /// Destination endpoint identifier.
    pub destination: ValueFact,
    /// Optional description text.
    pub description: Option<ValueFact>,
    /// Optional technology text.
    pub technology: Option<ValueFact>,
}

impl Clone for RelationshipFact {
    fn clone(&self) -> (r: Self)
        ensures
            r == *self,
    {
        RelationshipFact {
            span: self.span,
            source: clone_opt_value(&self.source),
            destination: self.destination.clone(),
            description: clone_opt_value(&self.description),
            technology: clone_opt_value(&self.technology),
        }
    }
}

/// One explicit dynamic-relationship step.
#[derive(Debug, PartialEq, Eq)]
pub struct DynamicRelationshipFact {
    /// Source span covered by the whole dynamic step.
    pub span: TextSpan,
    /// Optional explicit ordering prefix.
    pub order: Option<String>,
    /// Source endpoint identifier.
    pub source: ValueFact,
    /// Destination endpoint identifier.
    pub destination: ValueFact,
    /// Optional description text.
    pub description: Option<ValueFact>,
    /// Optional technology text.
    pub technology: Option<ValueFact>,
}

impl Clone for DynamicRelationshipFact {
    fn clone(&self) -> (r: Self)
        ensures
            r == *self,
    {
        DynamicRelationshipFact {
            span: self.span,
            order: clone_opt_string(&self.order),
            source: self.source.clone(),
            destination: self.destination.clone(),
            description: clone_opt_value(&self.description),
            technology: clone_opt_value(&self.technology),
        }
    }
}

/// One dynamic step that references a named relationship binding.
#[derive(Debug, PartialEq, Eq)]
pub struct DynamicRelationshipReferenceFact {
    /// Source span covered by the whole dynamic step.
    pub span: TextSpan,
    /// Optional explicit ordering prefix.
    pub order: Option<String>,
    /// Referenced relationship identifier.
    pub relationship: ValueFact,
    /// Description text attached to the step.
    pub description: ValueFact,
}

impl Clone for DynamicRelationshipReferenceFact {
    fn clone(&self) -> (r: Self)
        ensures
            r == *self,
    {
        DynamicRelationshipReferenceFact {
            span: self.span,
            order: clone_opt_string(&self.order),
            relationship: self.relationship.clone(),
            description: self.description.clone(),
        }
    }
}

/// One dynamic-view step, regardless of whether it spells endpoints or a binding.
#[derive(Debug, PartialEq, Eq)]
pub enum DynamicViewStepFact {
    /// A step with explicit source and destination identifiers.
    Relationship(Box<DynamicRelationshipFact>),
    /// A step that references a named relationship binding.
    RelationshipReference(Box<DynamicRelationshipReferenceFact>),
}

impl Clone for DynamicViewStepFact {
    fn clone(&self) -> (r: Self)
        ensures
            r == *self,
    {
        match self {
            DynamicViewStepFact::Relationship(step) => {
                let inner: &DynamicRelationshipFact = step;
                DynamicViewStepFact::Relationship(Box::new(inner.clone()))
            },
            DynamicViewStepFact::RelationshipReference(step) => {
                let inner: &DynamicRelationshipReferenceFact = step;
                DynamicViewStepFact::RelationshipReference(Box::new(inner.clone()))
            },
        }
    }
}

/// Image-source statement families supported inside `image` views.
#[derive(Debug, Clone, Copy, PartialEq, Eq, Structural)]
pub enum ImageSourceKind {
    /// A `plantuml` source.
    PlantUml,
    /// A `mermaid` source.
    Mermaid,
    /// A `kroki` source.
    Kroki,
    /// A literal `image` source.
    Image,
}

/// Whether an image source belongs to the default, light, or dark set.
#[derive(Debug, Clone, Copy, PartialEq, Eq, Structural)]
pub enum ImageSourceMode {
    /// A source declared directly in the image view body.
    Default,
    /// A source nested under `light { ... }`.
    Light,
    /// A source nested under `dark { ... }`.
    Dark,
}

/// One extracted source statement from an `image` view.
#[derive(Debug, PartialEq, Eq)]
pub struct ImageSourceFact {
    /// The concrete source family.
    pub kind: ImageSourceKind,
    /// Which image-source mode owns this statement.
    pub mode: ImageSourceMode,
    /// Optional extra format argument used by `kroki`.
    pub format: Option<ValueFact>,
    /// Primary source value, such as a path or inline diagram text.
    pub value: ValueFact,
    /// Source span covered by the whole source statement.
    pub span: TextSpan,
}

impl Clone for ImageSourceFact {
    fn clone(&self) -> (r: Self)
        ensures
            r == *self,
    {
        ImageSourceFact {
            kind: self.kind,
            mode: self.mode,
            format: clone_opt_value(&self.format),
            value: self.value.clone(),
            span: self.span,
        }
    }
}

/// One extracted view definition plus the body facts later rules need.
#[derive(Debug, Clone, PartialEq, Eq)]
pub struct ViewFact {
    /// The concrete view family.
    pub kind: ViewKind,
    /// Source span covered by the whole view declaration.
    pub span: TextSpan,
    /// Optional span of the view body block.
    pub body_span: Option<TextSpan>,
    /// Optional declared view key.
    pub key: Option<ValueFact>,
    /// Optional scope value for scoped views.
    pub scope: Option<ValueFact>,
    /// Optional deployment-environment value for deployment views.
    pub environment: Option<ValueFact>,
    /// Optional base-view key for filtered views.
    pub base_key: Option<ValueFact>,
    /// Optional filter mode for filtered views.
    pub filter_mode: Option<String>,
    /// Optional tag filter value for filtered views.
    pub filter_tags: Option<ValueFact>,
    /// Optional `autoLayout` statement captured from the body.
    pub auto_layout: Option<AutoLayoutFact>,
    /// Identifier-like values collected from `include` statements.
    pub include_values: Vec<ValueFact>,
    /// Identifier-like values collected from `exclude` statements.
    pub exclude_values: Vec<ValueFact>,
    /// Identifier-like values collected from `animation` blocks.
    pub animation_values: Vec<ValueFact>,
    /// Dynamic-view steps collected from the body.
    pub dynamic_steps: Vec<DynamicViewStepFact>,
    /// Image-source statements collected from image-view bodies.
    pub image_sources: Vec<ImageSourceFact>,
}

} // verus!
