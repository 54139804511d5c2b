//! What semantic fact extraction yields for a syntax tree, as plain values.

use vstd::prelude::*;

use crate::extract::fields::{field_nodes, norm_text};
use crate::includes::{value_kind_of, DirectiveValueKind};
use crate::semantic::{
    AutoLayoutFact, ConfigurationScopeFact, DynamicViewStepFact, ElementDirectiveFact, ImageSourceFact,
    ImageSourceKind, ImageSourceMode, PropertyFact, RelationshipFact, ResourceDirectiveFact, ResourceDirectiveKind,
    ValueFact, ViewFact, ViewKind, WorkspaceScope, WorkspaceSectionFact, WorkspaceSectionKind,
};
use crate::span::TextSpan;
use crate::syntax::{field_child, SyntaxNode};
use crate::text::lower_seq;
use crate::workspace::bindings::opt_view;

verus! {

/// A value as plain values.
pub struct ValueModel {
    pub raw: Seq<char>,
    pub normalized: Seq<char>,
    pub kind: DirectiveValueKind,
    pub span: TextSpan,
}

pub open spec fn value_model(v: ValueFact) -> ValueModel {
    ValueModel { raw: v.raw_text@, normalized: v.normalized_text@, kind: v.value_kind, span: v.span }
}

pub open spec fn opt_value_model(o: Option<ValueFact>) -> Option<ValueModel> {
    match o {
        Some(v) => Some(value_model(v)),
        None => None,
    }
}

pub open spec fn value_models(v: Seq<ValueFact>) -> Seq<ValueModel> {
    v.map_values(|x: ValueFact| value_model(x))
}

/// The value a node denotes.
pub open spec fn node_value(n: SyntaxNode) -> ValueModel {
    ValueModel { raw: n.text@, normalized: norm_text(n), kind: value_kind_of(n.kind@), span: n.span }
}

/// The value of the first child of `n` under `field`.
pub open spec fn field_value(n: SyntaxNode, field: Seq<char>) -> Option<ValueModel> {
    match field_child(n, field) {
        Some(c) => Some(node_value(c)),
        None => None,
    }
}

/// The text of the first child of `n` under `field`.
pub open spec fn field_text(n: SyntaxNode, field: Seq<char>) -> Option<Seq<char>> {
    match field_child(n, field) {
        Some(c) => Some(c.text@),
        None => None,
    }
}

/// A workspace scope as plain values.
pub enum ScopeModel {
    Landscape,
    SoftwareSystem,
    Container,
    Component,
    Other(Seq<char>),
}

/// The scope a raw value names, ignoring ASCII case.
pub open spec fn scope_of(raw: Seq<char>) -> ScopeModel {
    let l = lower_seq(raw);
    if l == "landscape"@ {
        ScopeModel::Landscape
    } else if l == "softwaresystem"@ {
        ScopeModel::SoftwareSystem
    } else if l == "container"@ {
        ScopeModel::Container
    } else if l == "component"@ {
        ScopeModel::Component
    } else {
        ScopeModel::Other(raw)
    }
}

pub open spec fn scope_model(s: WorkspaceScope) -> ScopeModel {
    match s {
        WorkspaceScope::Landscape => ScopeModel::Landscape,
        WorkspaceScope::SoftwareSystem => ScopeModel::SoftwareSystem,
        WorkspaceScope::Container => ScopeModel::Container,
        WorkspaceScope::Component => ScopeModel::Component,
        WorkspaceScope::Other(o) => ScopeModel::Other(o@),
    }
}

pub struct ScopeFactModel {
    pub scope: ScopeModel,
    pub value: ValueModel,
    pub span: TextSpan,
}

pub open spec fn scope_fact_model(f: ConfigurationScopeFact) -> ScopeFactModel {
    ScopeFactModel { scope: scope_model(f.scope), value: value_model(f.value), span: f.span }
}

pub struct PropertyModel {
    pub name: ValueModel,
    pub value: ValueModel,
    pub span: TextSpan,
    pub container: Seq<char>,
}

pub open spec fn property_model(f: PropertyFact) -> PropertyModel {
    PropertyModel { name: value_model(f.name), value: value_model(f.value), span: f.span, container: f.container_node_kind@ }
}

pub struct ResourceModel {
    pub kind: ResourceDirectiveKind,
    pub path: ValueModel,
    pub importer: Option<ValueModel>,
    pub span: TextSpan,
    pub container: Seq<char>,
}

pub open spec fn resource_model(f: ResourceDirectiveFact) -> ResourceModel {
    ResourceModel {
        kind: f.kind,
        path: value_model(f.path),
        importer: opt_value_model(f.importer),
        span: f.span,
        container: f.container_node_kind@,
    }
}

pub struct ElementDirectiveModel {
    pub target: ValueModel,
    pub span: TextSpan,
    pub container: Seq<char>,
}

pub open spec fn element_directive_model(f: ElementDirectiveFact) -> ElementDirectiveModel {
    ElementDirectiveModel { target: value_model(f.target), span: f.span, container: f.container_node_kind@ }
}

pub struct RelationshipModel {
    pub span: TextSpan,
    pub source: Option<ValueModel>,
    pub destination: ValueModel,
    pub description: Option<ValueModel>,
    pub technology: Option<ValueModel>,
}

pub open spec fn relationship_model(f: RelationshipFact) -> RelationshipModel {
    RelationshipModel {
        span: f.span,
        source: opt_value_model(f.source),
        destination: value_model(f.destination),
        description: opt_value_model(f.description),
        technology: opt_value_model(f.technology),
    }
}

pub struct AutoLayoutModel {
    pub span: TextSpan,
    pub direction: Option<Seq<char>>,
    pub rank_separation: Option<Seq<char>>,
    pub node_separation: Option<Seq<char>>,
}

pub open spec fn auto_layout_model(f: AutoLayoutFact) -> AutoLayoutModel {
    AutoLayoutModel {
        span: f.span,
        direction: opt_view(f.direction),
        rank_separation: opt_view(f.rank_separation),
        node_separation: opt_view(f.node_separation),
    }
}

pub open spec fn opt_auto_layout_model(o: Option<AutoLayoutFact>) -> Option<AutoLayoutModel> {
    match o {
        Some(f) => Some(auto_layout_model(f)),
        None => None,
    }
}

pub enum StepModel {
    Relationship {
        span: TextSpan,
        order: Option<Seq<char>>,
        source: ValueModel,
        destination: ValueModel,
        description: Option<ValueModel>,
        technology: Option<ValueModel>,
    },
    Reference { span: TextSpan, order: Option<Seq<char>>, relationship: ValueModel, description: ValueModel },
}

pub open spec fn step_model(f: DynamicViewStepFact) -> StepModel {
    match f {
        DynamicViewStepFact::Relationship(s) => StepModel::Relationship {
            span: s.span,
            order: opt_view(s.order),
            source: value_model(s.source),
            destination: value_model(s.destination),
            description: opt_value_model(s.description),
            technology: opt_value_model(s.technology),
        },
        DynamicViewStepFact::RelationshipReference(s) => StepModel::Reference {
            span: s.span,
            order: opt_view(s.order),
            relationship: value_model(s.relationship),
            description: value_model(s.description),
        },
    }
}

pub open spec fn step_models(v: Seq<DynamicViewStepFact>) -> Seq<StepModel> {
    v.map_values(|x: DynamicViewStepFact| step_model(x))
}

pub struct ImageModel {
    pub kind: ImageSourceKind,
    pub mode: ImageSourceMode,
    pub format: Option<ValueModel>,
    pub value: ValueModel,
    pub span: TextSpan,
}

pub open spec fn image_model(f: ImageSourceFact) -> ImageModel {
    ImageModel { kind: f.kind, mode: f.mode, format: opt_value_model(f.format), value: value_model(f.value), span: f.span }
}

pub open spec fn image_models(v: Seq<ImageSourceFact>) -> Seq<ImageModel> {
    v.map_values(|x: ImageSourceFact| image_model(x))
}

pub struct ViewModel {
    pub kind: ViewKind,
    pub span: TextSpan,
    pub body_span: Option<TextSpan>,
    pub key: Option<ValueModel>,
    pub scope: Option<ValueModel>,
    pub environment: Option<ValueModel>,
    pub base_key: Option<ValueModel>,
    pub filter_mode: Option<Seq<char>>,
    pub filter_tags: Option<ValueModel>,
    pub auto_layout: Option<AutoLayoutModel>,
    pub include_values: Seq<ValueModel>,
    pub exclude_values: Seq<ValueModel>,
    pub animation_values: Seq<ValueModel>,
    pub dynamic_steps: Seq<StepModel>,
    pub image_sources: Seq<ImageModel>,
}

pub open spec fn view_model(f: ViewFact) -> ViewModel {
    ViewModel {
        kind: f.kind,
        span: f.span,
        body_span: f.body_span,
        key: opt_value_model(f.key),
        scope: opt_value_model(f.scope),
        environment: opt_value_model(f.environment),
        base_key: opt_value_model(f.base_key),
        filter_mode: opt_view(f.filter_mode),
        filter_tags: opt_value_model(f.filter_tags),
        auto_layout: opt_auto_layout_model(f.auto_layout),
        include_values: value_models(f.include_values@),
        exclude_values: value_models(f.exclude_values@),
        animation_values: value_models(f.animation_values@),
        dynamic_steps: step_models(f.dynamic_steps@),
        image_sources: image_models(f.image_sources@),
    }
}

/// All semantic facts extracted so far.
pub struct SemanticState {
    pub sections: Seq<WorkspaceSectionFact>,
    pub scopes: Seq<ScopeFactModel>,
    pub properties: Seq<PropertyModel>,
    pub resources: Seq<ResourceModel>,
    pub elements: Seq<ElementDirectiveModel>,
    pub relationships: Seq<RelationshipModel>,
    pub views: Seq<ViewModel>,
}

/// The view kind of a view node kind.
pub open spec fn view_kind_of(k: Seq<char>) -> Option<ViewKind> {
    if k == "system_landscape_view"@ {
        Some(ViewKind::SystemLandscape)
    } else if k == "system_context_view"@ {
        Some(ViewKind::SystemContext)
    } else if k == "container_view"@ {
        Some(ViewKind::Container)
    } else if k == "component_view"@ {
        Some(ViewKind::Component)
    } else if k == "filtered_view"@ {
        Some(ViewKind::Filtered)
    } else if k == "dynamic_view"@ {
        Some(ViewKind::Dynamic)
    } else if k == "deployment_view"@ {
        Some(ViewKind::Deployment)
    } else if k == "custom_view"@ {
        Some(ViewKind::Custom)
    } else if k == "image_view"@ {
        Some(ViewKind::Image)
    } else {
        None
    }
}

/// The values of the named nodes of `cs`, in order.
pub open spec fn named_values(cs: Seq<SyntaxNode>) -> Seq<ValueModel>
    decreases cs.len(),
{
    if cs.len() == 0 {
        Seq::empty()
    } else if cs.last().is_named {
        named_values(cs.drop_last()).push(node_value(cs.last()))
    } else {
        named_values(cs.drop_last())
    }
}

/// The values of every statement of kind `stmt` below `n` (not below such a statement).
pub open spec fn statement_values(n: SyntaxNode, stmt: Seq<char>) -> Seq<ValueModel>
    decreases n,
{
    if n.kind@ == stmt {
        named_values(n.children@)
    } else {
        statement_values_list(n.children@, stmt)
    }
}

pub open spec fn statement_values_list(cs: Seq<SyntaxNode>, stmt: Seq<char>) -> Seq<ValueModel>
    decreases cs,
{
    if cs.len() == 0 {
        Seq::empty()
    } else if cs.last().is_named {
        statement_values_list(cs.drop_last(), stmt) + statement_values(cs.last(), stmt)
    } else {
        statement_values_list(cs.drop_last(), stmt)
    }
}

/// The step a node states itself.
pub open spec fn own_step(n: SyntaxNode) -> Seq<StepModel> {
    if n.kind@ == "dynamic_relationship"@ {
        match (field_value(n, "source"@), field_value(n, "destination"@)) {
            (Some(s), Some(d)) => seq![
                StepModel::Relationship {
                    span: n.span,
                    order: field_text(n, "order"@),
                    source: s,
                    destination: d,
                    description: field_value(n, "description"@),
                    technology: field_value(n, "technology"@),
                },
            ],
            _ => Seq::empty(),
        }
    } else if n.kind@ == "dynamic_relationship_reference"@ {
        match (field_value(n, "relationship"@), field_value(n, "description"@)) {
            (Some(r), Some(d)) => seq![
                StepModel::Reference { span: n.span, order: field_text(n, "order"@), relationship: r, description: d },
            ],
            _ => Seq::empty(),
        }
    } else {
        Seq::empty()
    }
}

/// Every dynamic step below and at `n`, in pre-order over named nodes.
pub open spec fn dynamic_steps(n: SyntaxNode) -> Seq<StepModel>
    decreases n,
{
    own_step(n) + dynamic_steps_list(n.children@)
}

pub open spec fn dynamic_steps_list(cs: Seq<SyntaxNode>) -> Seq<StepModel>
    decreases cs,
{
    if cs.len() == 0 {
        Seq::empty()
    } else if cs.last().is_named {
        dynamic_steps_list(cs.drop_last()) + dynamic_steps(cs.last())
    } else {
        dynamic_steps_list(cs.drop_last())
    }
}

/// The image source kind of a node kind.
pub open spec fn image_kind_of(k: Seq<char>) -> Option<ImageSourceKind> {
    if k == "plantuml_source"@ {
        Some(ImageSourceKind::PlantUml)
    } else if k == "mermaid_source"@ {
        Some(ImageSourceKind::Mermaid)
    } else if k == "kroki_source"@ {
        Some(ImageSourceKind::Kroki)
    } else if k == "image_source"@ {
        Some(ImageSourceKind::Image)
    } else {
        None
    }
}

/// The image source a node states itself, under `mode`.
pub open spec fn own_image(n: SyntaxNode, mode: ImageSourceMode) -> Seq<ImageModel> {
    match (image_kind_of(n.kind@), field_value(n, "value"@)) {
        (Some(k), Some(v)) => seq![
            ImageModel {
                kind: k,
                mode,
                format: if k == ImageSourceKind::Kroki {
                    field_value(n, "format"@)
                } else {
                    None
                },
                value: v,
                span: n.span,
            },
        ],
        _ => Seq::empty(),
    }
}

/// Every image source below and at `n`; light and dark blocks set the mode of what their
/// bodies hold.
pub open spec fn image_sources(n: SyntaxNode, mode: ImageSourceMode) -> Seq<ImageModel>
    decreases n,
{
    if n.kind@ == "light_image_sources"@ {
        match field_child(n, "body"@) {
            Some(b) => image_sources(b, ImageSourceMode::Light),
            None => Seq::empty(),
        }
    } else if n.kind@ == "dark_image_sources"@ {
        match field_child(n, "body"@) {
            Some(b) => image_sources(b, ImageSourceMode::Dark),
            None => Seq::empty(),
        }
    } else {
        own_image(n, mode) + image_sources_list(n.children@, mode)
    }
}

pub open spec fn image_sources_list(cs: Seq<SyntaxNode>, mode: ImageSourceMode) -> Seq<ImageModel>
    decreases cs,
{
    if cs.len() == 0 {
        Seq::empty()
    } else if cs.last().is_named {
        image_sources_list(cs.drop_last(), mode) + image_sources(cs.last(), mode)
    } else {
        image_sources_list(cs.drop_last(), mode)
    }
}

/// The first `autoLayout` statement at or below `n`, in pre-order over named nodes.
pub open spec fn first_auto_layout(n: SyntaxNode) -> Option<AutoLayoutModel>
    decreases n,
{
    if n.kind@ == "auto_layout_statement"@ {
        Some(
            AutoLayoutModel {
                span: n.span,
                direction: field_text(n, "direction"@),
                rank_separation: field_text(n, "rank_separation"@),
                node_separation: field_text(n, "node_separation"@),
            },
        )
    } else {
        first_auto_layout_list(n.children@)
    }
}

pub open spec fn first_auto_layout_list(cs: Seq<SyntaxNode>) -> Option<AutoLayoutModel>
    decreases cs,
{
    if cs.len() == 0 {
        None
    } else {
        let prev = first_auto_layout_list(cs.drop_last());
        if prev is Some {
            prev
        } else if cs.last().is_named {
            first_auto_layout(cs.last())
        } else {
            None
        }
    }
}

/// The values of the statements of kind `stmt` in the body of `n`.
pub open spec fn body_values(n: SyntaxNode, stmt: Seq<char>) -> Seq<ValueModel> {
    match field_child(n, "body"@) {
        Some(b) => statement_values(b, stmt),
        None => Seq::empty(),
    }
}

/// The fact of view node `n`.
pub open spec fn view_of(n: SyntaxNode, kind: ViewKind) -> ViewModel {
    let body = field_child(n, "body"@);
    ViewModel {
        kind,
        span: n.span,
        body_span: match body {
            Some(b) => Some(b.span),
            None => None,
        },
        key: field_value(n, "key"@),
        scope: field_value(n, "scope"@),
        environment: field_value(n, "environment"@),
        base_key: field_value(n, "base_key"@),
        filter_mode: field_text(n, "mode"@),
        filter_tags: field_value(n, "tags"@),
        auto_layout: match body {
            Some(b) => first_auto_layout(b),
            None => None,
        },
        include_values: body_values(n, "include_statement"@),
        exclude_values: body_values(n, "exclude_statement"@),
        animation_values: body_values(n, "animation_block"@),
        dynamic_steps: match body {
            Some(b) => dynamic_steps(b),
            None => Seq::empty(),
        },
        image_sources: match body {
            Some(b) => image_sources(b, ImageSourceMode::Default),
            None => Seq::empty(),
        },
    }
}

/// The values of the `attribute` fields of `n` whose normalized text is not empty.
pub open spec fn nonempty_values(cs: Seq<SyntaxNode>) -> Seq<ValueModel>
    decreases cs.len(),
{
    if cs.len() == 0 {
        Seq::empty()
    } else if norm_text(cs.last()).len() == 0 {
        nonempty_values(cs.drop_last())
    } else {
        nonempty_values(cs.drop_last()).push(node_value(cs.last()))
    }
}

pub open spec fn value_at(vs: Seq<ValueModel>, i: int) -> Option<ValueModel> {
    if 0 <= i < vs.len() {
        Some(vs[i])
    } else {
        None
    }
}

/// The fact of a relationship node with a destination.
pub open spec fn relationship_of(n: SyntaxNode, destination: ValueModel) -> RelationshipModel {
    let attrs = nonempty_values(field_nodes(n.children@, "attribute"@, None));
    RelationshipModel {
        span: n.span,
        source: field_value(n, "source"@),
        destination,
        description: value_at(attrs, 0),
        technology: value_at(attrs, 1),
    }
}

/// The section kind of a section node kind.
pub open spec fn section_kind_of(k: Seq<char>) -> Option<WorkspaceSectionKind> {
    if k == "model"@ {
        Some(WorkspaceSectionKind::Model)
    } else if k == "views"@ {
        Some(WorkspaceSectionKind::Views)
    } else if k == "configuration"@ {
        Some(WorkspaceSectionKind::Configuration)
    } else {
        None
    }
}

/// `st` with the facts node `n` states itself; `parent` is the kind of its parent (or
/// `source_file`) and `owner` that of its nearest ancestor that is not a `properties_block`.
pub open spec fn own_facts(st: SemanticState, n: SyntaxNode, parent: Seq<char>, owner: Seq<char>) -> SemanticState {
    let k = n.kind@;
    if section_kind_of(k) is Some {
        SemanticState {
            sections: st.sections.push(WorkspaceSectionFact { kind: section_kind_of(k)->0, span: n.span }),
            ..st
        }
    } else if k == "scope_statement"@ && parent == "configuration_block"@ {
        match field_value(n, "value"@) {
            Some(v) => SemanticState {
                scopes: st.scopes.push(ScopeFactModel { scope: scope_of(v.normalized), value: v, span: n.span }),
                ..st
            },
            None => st,
        }
    } else if k == "property_entry"@ {
        match (field_value(n, "name"@), field_value(n, "value"@)) {
            (Some(a), Some(v)) => SemanticState {
                properties: st.properties.push(PropertyModel { name: a, value: v, span: n.span, container: owner }),
                ..st
            },
            _ => st,
        }
    } else if k == "docs_directive"@ || k == "adrs_directive"@ {
        match field_value(n, "path"@) {
            Some(p) => SemanticState {
                resources: st.resources.push(
                    ResourceModel {
                        kind: if k == "docs_directive"@ {
                            ResourceDirectiveKind::Docs
                        } else {
                            ResourceDirectiveKind::Adrs
                        },
                        path: p,
                        importer: field_value(n, "importer"@),
                        span: n.span,
                        container: parent,
                    },
                ),
                ..st
            },
            None => st,
        }
    } else if k == "element_directive"@ {
        match field_value(n, "target"@) {
            Some(t) => SemanticState {
                elements: st.elements.push(ElementDirectiveModel { target: t, span: n.span, container: parent }),
                ..st
            },
            None => st,
        }
    } else if k == "relationship"@ || k == "nested_relationship"@ {
        match field_value(n, "destination"@) {
            Some(d) => SemanticState { relationships: st.relationships.push(relationship_of(n, d)), ..st },
            None => st,
        }
    } else if view_kind_of(k) is Some {
        SemanticState { views: st.views.push(view_of(n, view_kind_of(k)->0)), ..st }
    } else {
        st
    }
}

/// The owner kind for the children of a node of kind `k` whose own owner is `owner`.
pub open spec fn owner_below(k: Seq<char>, owner: Seq<char>) -> Seq<char> {
    if k == "properties_block"@ {
        owner
    } else {
        k
    }
}

/// `st` after visiting `n` and its named descendants in pre-order.
pub open spec fn semantic_visit(st: SemanticState, n: SyntaxNode, parent: Seq<char>, owner: Seq<char>) -> SemanticState
    decreases n,
{
    semantic_visit_list(own_facts(st, n, parent, owner), n.children@, n.kind@, owner_below(n.kind@, owner))
}

pub open spec fn semantic_visit_list(st: SemanticState, cs: Seq<SyntaxNode>, parent: Seq<char>, owner: Seq<char>) -> SemanticState
    decreases cs,
{
    if cs.len() == 0 {
        st
    } else {
        let s = semantic_visit_list(st, cs.drop_last(), parent, owner);
        if cs.last().is_named {
            semantic_visit(s, cs.last(), parent, owner)
        } else {
            s
        }
    }
}

pub open spec fn empty_semantic_state() -> SemanticState {
    SemanticState {
        sections: Seq::empty(),
        scopes: Seq::empty(),
        properties: Seq::empty(),
        resources: Seq::empty(),
        elements: Seq::empty(),
        relationships: Seq::empty(),
        views: Seq::empty(),
    }
}

} // verus!
