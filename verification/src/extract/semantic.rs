//! Extraction of the syntax-backed facts that the semantic validators read.

use vstd::prelude::*;

use crate::extract::fields::{field_nodes, selected};
use crate::extract::semantic_model::{
    body_values, dynamic_steps, dynamic_steps_list, element_directive_model, empty_semantic_state,
    field_text, field_value, first_auto_layout, first_auto_layout_list, image_kind_of, image_model, image_models,
    image_sources, image_sources_list, named_values, node_value, nonempty_values, opt_auto_layout_model,
    opt_value_model, own_facts, own_image, own_step, owner_below, property_model, relationship_model, relationship_of,
    resource_model, scope_fact_model, scope_model, scope_of, section_kind_of, semantic_visit, semantic_visit_list,
    statement_values, statement_values_list, step_model, step_models, value_model, value_models, view_kind_of,
    view_model, view_of, SemanticState,
};
use crate::includes::DirectiveValueKind;
use crate::semantic::{
    AutoLayoutFact, ConfigurationScopeFact, DynamicRelationshipFact, DynamicRelationshipReferenceFact,
    DynamicViewStepFact, ElementDirectiveFact, ImageSourceFact, ImageSourceKind, ImageSourceMode, PropertyFact,
    RelationshipFact, ResourceDirectiveFact, ResourceDirectiveKind, ValueFact, ViewFact, ViewKind, WorkspaceScope,
    WorkspaceSectionFact, WorkspaceSectionKind,
};
use crate::syntax::SyntaxNode;
use crate::workspace::bindings::opt_view;

verus! {

/// The semantic facts of one document, each list in pre-order.
#[derive(Debug)]
pub struct CollectedSemanticFacts {
    /// Top-level `model`, `views` and `configuration` sections.
    pub workspace_sections: Vec<WorkspaceSectionFact>,
    /// `scope` statements of `configuration` blocks.
    pub configuration_scopes: Vec<ConfigurationScopeFact>,
    /// Entries of `properties` blocks.
    pub property_facts: Vec<PropertyFact>,
    /// `!docs` and `!adrs` directives.
    pub resource_directives: Vec<ResourceDirectiveFact>,
    /// `!element` directives.
    pub element_directives: Vec<ElementDirectiveFact>,
    /// Declared relationships.
    pub relationship_facts: Vec<RelationshipFact>,
    /// View definitions.
    pub view_facts: Vec<ViewFact>,
}

/// The facts of a collection as plain values.
pub open spec fn collected_state(c: CollectedSemanticFacts) -> SemanticState {
    SemanticState {
        sections: c.workspace_sections@,
        scopes: c.configuration_scopes@.map_values(|f: ConfigurationScopeFact| scope_fact_model(f)),
        properties: c.property_facts@.map_values(|f: PropertyFact| property_model(f)),
        resources: c.resource_directives@.map_values(|f: ResourceDirectiveFact| resource_model(f)),
        elements: c.element_directives@.map_values(|f: ElementDirectiveFact| element_directive_model(f)),
        relationships: c.relationship_facts@.map_values(|f: RelationshipFact| relationship_model(f)),
        views: c.view_facts@.map_values(|f: ViewFact| view_model(f)),
    }
}

/// The value a node denotes.
pub fn value_from_node(n: &SyntaxNode) -> (r: ValueFact)
    ensures
        value_model(r) == node_value(*n),
{
    ValueFact::new(n.text.clone(), DirectiveValueKind::from_node_kind(n.kind.as_str()), n.span)
}

/// The value of the first child of `n` under `field`.
pub fn value_from_field(n: &SyntaxNode, field: &str) -> (r: Option<ValueFact>)
    ensures
        opt_value_model(r) == field_value(*n, field@),
{
    match n.child_by_field_name(field) {
        Some(c) => Some(value_from_node(c)),
        None => None,
    }
}

fn text_from_field(n: &SyntaxNode, field: &str) -> (r: Option<String>)
    ensures
        opt_view(r) == field_text(*n, field@),
{
    match n.child_by_field_name(field) {
        Some(c) => Some(c.text.clone()),
        None => None,
    }
}

fn push_value(values: &mut Vec<ValueFact>, v: ValueFact)
    ensures
        value_models(final(values)@) == value_models(old(values)@).push(value_model(v)),
{
    let ghost before = values@;
    values.push(v);
    assert(value_models(values@) =~= value_models(before).push(value_model(v)));
}

fn push_named_values(n: &SyntaxNode, values: &mut Vec<ValueFact>)
    ensures
        value_models(final(values)@) == value_models(old(values)@) + named_values(n.children@),
{
    let ghost v0 = value_models(values@);
    let mut i: usize = 0;
    assert(named_values(n.children@.take(0)) =~= Seq::<crate::extract::semantic_model::ValueModel>::empty());
    assert(v0 + Seq::empty() =~= v0);
    while i < n.children.len()
        invariant
            i <= n.children.len(),
            v0 == value_models(old(values)@),
            value_models(values@) == v0 + named_values(n.children@.take(i as int)),
        decreases n.children.len() - i,
    {
        let c = &n.children[i];
        proof {
            assert(n.children@.take(i + 1).drop_last() =~= n.children@.take(i as int));
        }
        if c.is_named {
            push_value(values, value_from_node(c));
        }
        assert(value_models(values@) =~= v0 + named_values(n.children@.take(i + 1)));
        i = i + 1;
    }
    assert(n.children@.take(n.children.len() as int) =~= n.children@);
}

fn collect_statement_values(n: &SyntaxNode, stmt: &str, values: &mut Vec<ValueFact>)
    ensures
        value_models(final(values)@) == value_models(old(values)@) + statement_values(*n, stmt@),
    decreases n,
{
    if n.has_kind(stmt) {
        push_named_values(n, values);
        return;
    }
    let ghost v0 = value_models(values@);
    let mut i: usize = 0;
    assert(v0 + Seq::empty() =~= v0);
    while i < n.children.len()
        invariant
            i <= n.children.len(),
            v0 == value_models(old(values)@),
            value_models(values@) == v0 + statement_values_list(n.children@.take(i as int), stmt@),
        decreases n.children.len() - i,
    {
        let c = &n.children[i];
        proof {
            assert(n.children@.take(i + 1).drop_last() =~= n.children@.take(i as int));
        }
        if c.is_named {
            collect_statement_values(c, stmt, values);
        }
        assert(value_models(values@) =~= v0 + statement_values_list(n.children@.take(i + 1), stmt@));
        i = i + 1;
    }
    assert(n.children@.take(n.children.len() as int) =~= n.children@);
}

fn body_statement_values(view: &SyntaxNode, stmt: &str) -> (r: Vec<ValueFact>)
    ensures
        value_models(r@) == body_values(*view, stmt@),
{
    let mut values: Vec<ValueFact> = Vec::new();
    assert(value_models(values@) =~= Seq::empty());
    if let Some(b) = view.child_by_field_name("body") {
        collect_statement_values(b, stmt, &mut values);
        assert(value_models(values@) =~= statement_values(*b, stmt@));
    }
    values
}

fn own_dynamic_step(n: &SyntaxNode) -> (r: Option<DynamicViewStepFact>)
    ensures
        match r {
            Some(s) => own_step(*n) == seq![step_model(s)],
            None => own_step(*n) =~= Seq::empty(),
        },
{
    if n.has_kind("dynamic_relationship") {
        let source = value_from_field(n, "source");
        let destination = value_from_field(n, "destination");
        match (source, destination) {
            (Some(s), Some(d)) => {
                let step = DynamicRelationshipFact {
                    span: n.span,
                    order: text_from_field(n, "order"),
                    source: s,
                    destination: d,
                    description: value_from_field(n, "description"),
                    technology: value_from_field(n, "technology"),
                };
                Some(DynamicViewStepFact::Relationship(Box::new(step)))
            },
            _ => None,
        }
    } else if n.has_kind("dynamic_relationship_reference") {
        let relationship = value_from_field(n, "relationship");
        let description = value_from_field(n, "description");
        match (relationship, description) {
            (Some(rel), Some(d)) => {
                let step = DynamicRelationshipReferenceFact {
                    span: n.span,
                    order: text_from_field(n, "order"),
                    relationship: rel,
                    description: d,
                };
                Some(DynamicViewStepFact::RelationshipReference(Box::new(step)))
            },
            _ => None,
        }
    } else {
        None
    }
}

fn collect_dynamic_steps(n: &SyntaxNode, steps: &mut Vec<DynamicViewStepFact>)
    ensures
        step_models(final(steps)@) == step_models(old(steps)@) + dynamic_steps(*n),
    decreases n,
{
    let ghost s0 = step_models(steps@);
    if let Some(step) = own_dynamic_step(n) {
        let ghost before = steps@;
        steps.push(step);
        assert(step_models(steps@) =~= step_models(before).push(step_model(step)));
    }
    let ghost s1 = step_models(steps@);
    assert(s1 =~= s0 + own_step(*n));
    let mut i: usize = 0;
    assert(s1 + Seq::empty() =~= s1);
    while i < n.children.len()
        invariant
            i <= n.children.len(),
            step_models(steps@) == s1 + dynamic_steps_list(n.children@.take(i as int)),
        decreases n.children.len() - i,
    {
        let c = &n.children[i];
        proof {
            assert(n.children@.take(i + 1).drop_last() =~= n.children@.take(i as int));
        }
        if c.is_named {
            collect_dynamic_steps(c, steps);
        }
        assert(step_models(steps@) =~= s1 + dynamic_steps_list(n.children@.take(i + 1)));
        i = i + 1;
    }
    assert(n.children@.take(n.children.len() as int) =~= n.children@);
    assert(step_models(steps@) =~= s0 + dynamic_steps(*n));
}

fn image_source_kind(kind: &str) -> (r: Option<ImageSourceKind>)
    ensures
        r == image_kind_of(kind@),
{
    if crate::text::str_eq(kind, "plantuml_source") {
        Some(ImageSourceKind::PlantUml)
    } else if crate::text::str_eq(kind, "mermaid_source") {
        Some(ImageSourceKind::Mermaid)
    } else if crate::text::str_eq(kind, "kroki_source") {
        Some(ImageSourceKind::Kroki)
    } else if crate::text::str_eq(kind, "image_source") {
        Some(ImageSourceKind::Image)
    } else {
        None
    }
}

fn own_image_source(n: &SyntaxNode, mode: ImageSourceMode) -> (r: Option<ImageSourceFact>)
    ensures
        match r {
            Some(s) => own_image(*n, mode) == seq![image_model(s)],
            None => own_image(*n, mode) =~= Seq::empty(),
        },
{
    let kind = image_source_kind(n.kind.as_str());
    let value = value_from_field(n, "value");
    match (kind, value) {
        (Some(k), Some(v)) => {
            let format = match k {
                ImageSourceKind::Kroki => value_from_field(n, "format"),
                _ => None,
            };
            Some(ImageSourceFact { kind: k, mode, format, value: v, span: n.span })
        },
        _ => None,
    }
}

fn collect_image_sources(n: &SyntaxNode, mode: ImageSourceMode, sources: &mut Vec<ImageSourceFact>)
    ensures
        image_models(final(sources)@) == image_models(old(sources)@) + image_sources(*n, mode),
    decreases n,
{
    let ghost s0 = image_models(sources@);
    if n.has_kind("light_image_sources") {
        if let Some(b) = n.child_by_field_name("body") {
            collect_image_sources(b, ImageSourceMode::Light, sources);
        } else {
            assert(s0 + Seq::empty() =~= s0);
        }
        return;
    }
    if n.has_kind("dark_image_sources") {
        if let Some(b) = n.child_by_field_name("body") {
            collect_image_sources(b, ImageSourceMode::Dark, sources);
        } else {
            assert(s0 + Seq::empty() =~= s0);
        }
        return;
    }
    if let Some(source) = own_image_source(n, mode) {
        let ghost before = sources@;
        sources.push(source);
        assert(image_models(sources@) =~= image_models(before).push(image_model(source)));
    }
    let ghost s1 = image_models(sources@);
    assert(s1 =~= s0 + own_image(*n, mode));
    let mut i: usize = 0;
    assert(s1 + Seq::empty() =~= s1);
    while i < n.children.len()
        invariant
            i <= n.children.len(),
            image_models(sources@) == s1 + image_sources_list(n.children@.take(i as int), mode),
        decreases n.children.len() - i,
    {
        let c = &n.children[i];
        proof {
            assert(n.children@.take(i + 1).drop_last() =~= n.children@.take(i as int));
        }
        if c.is_named {
            collect_image_sources(c, mode, sources);
        }
        assert(image_models(sources@) =~= s1 + image_sources_list(n.children@.take(i + 1), mode));
        i = i + 1;
    }
    assert(n.children@.take(n.children.len() as int) =~= n.children@);
    assert(image_models(sources@) =~= s0 + image_sources(*n, mode));
}

proof fn lemma_first_auto_layout_prefix(cs: Seq<SyntaxNode>, j: int)
    requires
        0 <= j <= cs.len(),
        first_auto_layout_list(cs.take(j)) is Some,
    ensures
        first_auto_layout_list(cs) == first_auto_layout_list(cs.take(j)),
    decreases cs.len() - j,
{
    if j == cs.len() {
        assert(cs.take(j) =~= cs);
    } else {
        assert(cs.drop_last().take(j) =~= cs.take(j));
        lemma_first_auto_layout_prefix(cs.drop_last(), j);
    }
}

fn find_auto_layout(n: &SyntaxNode) -> (r: Option<AutoLayoutFact>)
    ensures
        opt_auto_layout_model(r) == first_auto_layout(*n),
    decreases n,
{
    if n.has_kind("auto_layout_statement") {
        return Some(
            AutoLayoutFact {
                span: n.span,
                direction: text_from_field(n, "direction"),
                rank_separation: text_from_field(n, "rank_separation"),
                node_separation: text_from_field(n, "node_separation"),
            },
        );
    }
    let mut i: usize = 0;
    while i < n.children.len()
        invariant
            i <= n.children.len(),
            first_auto_layout_list(n.children@.take(i as int)) is None,
            first_auto_layout(*n) == first_auto_layout_list(n.children@),
        decreases n.children.len() - i,
    {
        let c = &n.children[i];
        proof {
            assert(n.children@.take(i + 1).drop_last() =~= n.children@.take(i as int));
        }
        if c.is_named {
            let found = find_auto_layout(c);
            if found.is_some() {
                proof {
                    assert(first_auto_layout_list(n.children@.take(i + 1)) == first_auto_layout(*c));
                    lemma_first_auto_layout_prefix(n.children@, i + 1);
                }
                return found;
            }
        }
        i = i + 1;
    }
    assert(n.children@.take(n.children.len() as int) =~= n.children@);
    None
}

fn view_kind(kind: &str) -> (r: Option<ViewKind>)
    ensures
        r == view_kind_of(kind@),
{
    if crate::text::str_eq(kind, "system_landscape_view") {
        Some(ViewKind::SystemLandscape)
    } else if crate::text::str_eq(kind, "system_context_view") {
        Some(ViewKind::SystemContext)
    } else if crate::text::str_eq(kind, "container_view") {
        Some(ViewKind::Container)
    } else if crate::text::str_eq(kind, "component_view") {
        Some(ViewKind::Component)
    } else if crate::text::str_eq(kind, "filtered_view") {
        Some(ViewKind::Filtered)
    } else if crate::text::str_eq(kind, "dynamic_view") {
        Some(ViewKind::Dynamic)
    } else if crate::text::str_eq(kind, "deployment_view") {
        Some(ViewKind::Deployment)
    } else if crate::text::str_eq(kind, "custom_view") {
        Some(ViewKind::Custom)
    } else if crate::text::str_eq(kind, "image_view") {
        Some(ViewKind::Image)
    } else {
        None
    }
}

/// The fact of a view node of kind `kind`.
pub fn view_fact(n: &SyntaxNode, kind: ViewKind) -> (r: ViewFact)
    ensures
        view_model(r) == view_of(*n, kind),
{
    let body = n.child_by_field_name("body");
    let include_values = body_statement_values(n, "include_statement");
    let exclude_values = body_statement_values(n, "exclude_statement");
    let animation_values = body_statement_values(n, "animation_block");
    let mut dynamic_steps_found: Vec<DynamicViewStepFact> = Vec::new();
    let mut image_sources_found: Vec<ImageSourceFact> = Vec::new();
    assert(step_models(dynamic_steps_found@) =~= Seq::empty());
    assert(image_models(image_sources_found@) =~= Seq::empty());
    let mut auto_layout: Option<AutoLayoutFact> = None;
    let mut body_span = None;
    if let Some(b) = body {
        collect_dynamic_steps(b, &mut dynamic_steps_found);
        collect_image_sources(b, ImageSourceMode::Default, &mut image_sources_found);
        auto_layout = find_auto_layout(b);
        body_span = Some(b.span);
        assert(step_models(dynamic_steps_found@) =~= dynamic_steps(*b));
        assert(image_models(image_sources_found@) =~= image_sources(*b, ImageSourceMode::Default));
    }
    ViewFact {
        kind,
        span: n.span,
        body_span,
        key: value_from_field(n, "key"),
        scope: value_from_field(n, "scope"),
        environment: value_from_field(n, "environment"),
        base_key: value_from_field(n, "base_key"),
        filter_mode: text_from_field(n, "mode"),
        filter_tags: value_from_field(n, "tags"),
        auto_layout,
        include_values,
        exclude_values,
        animation_values,
        dynamic_steps: dynamic_steps_found,
        image_sources: image_sources_found,
    }
}

/// The fact of a relationship node, when it has a destination.
pub fn relationship_fact(n: &SyntaxNode) -> (r: Option<RelationshipFact>)
    ensures
        match field_value(*n, "destination"@) {
            Some(d) => r matches Some(f) && relationship_model(f) == relationship_of(*n, d),
            None => r is None,
        },
{
    let destination = match value_from_field(n, "destination") {
        Some(d) => d,
        None => return None,
    };
    let ghost cs = n.children@;
    let ghost none: Option<Seq<char>> = None;
    let mut attrs: Vec<ValueFact> = Vec::new();
    let mut i: usize = 0;
    assert(value_models(attrs@) =~= Seq::empty());
    while i < n.children.len()
        invariant
            cs == n.children@,
            none is None,
            i <= n.children.len(),
            value_models(attrs@) == nonempty_values(field_nodes(cs.take(i as int), "attribute"@, none)),
        decreases n.children.len() - i,
    {
        let c = &n.children[i];
        proof {
            assert(cs.take(i + 1).drop_last() =~= cs.take(i as int));
            assert(cs.take(i + 1).last() == cs[i as int]);
        }
        let ghost a0 = attrs@;
        let inf = c.in_field("attribute");
        assert(inf == selected(cs[i as int], "attribute"@, none));
        if inf {
            let v = value_from_node(c);
            if v.normalized_text.unicode_len() != 0 {
                push_value(&mut attrs, v);
            }
        }
        proof {
            let fs = field_nodes(cs.take(i as int), "attribute"@, none);
            let fs1 = field_nodes(cs.take(i + 1), "attribute"@, none);
            if inf {
                assert(fs1 == fs.push(cs[i as int]));
                assert(fs1.drop_last() =~= fs);
                assert(fs1.last() == cs[i as int]);
            } else {
                assert(fs1 == fs);
                assert(attrs@ == a0);
            }
        }
        i = i + 1;
    }
    assert(cs.take(cs.len() as int) =~= cs);
    let description = if attrs.len() > 0 {
        Some(attrs[0].clone())
    } else {
        None
    };
    let technology = if attrs.len() > 1 {
        Some(attrs[1].clone())
    } else {
        None
    };
    assert(attrs.len() > 0 ==> value_models(attrs@)[0] == value_model(attrs@[0]));
    assert(attrs.len() > 1 ==> value_models(attrs@)[1] == value_model(attrs@[1]));
    Some(
        RelationshipFact {
            span: n.span,
            source: value_from_field(n, "source"),
            destination,
            description,
            technology,
        },
    )
}

fn section_kind(kind: &str) -> (r: Option<WorkspaceSectionKind>)
    ensures
        r == section_kind_of(kind@),
{
    if crate::text::str_eq(kind, "model") {
        Some(WorkspaceSectionKind::Model)
    } else if crate::text::str_eq(kind, "views") {
        Some(WorkspaceSectionKind::Views)
    } else if crate::text::str_eq(kind, "configuration") {
        Some(WorkspaceSectionKind::Configuration)
    } else {
        None
    }
}

/// Walks a syntax tree and records semantic facts.
pub struct SemanticCollector {
    /// The facts found so far.
    pub facts: CollectedSemanticFacts,
}

impl SemanticCollector {
    fn own_facts(&mut self, node: &SyntaxNode, parent: &str, owner: &str)
        ensures
            collected_state(final(self).facts) == own_facts(collected_state(old(self).facts), *node, parent@, owner@),
    {
        let ghost st = collected_state(self.facts);
        let k = node.kind.as_str();
        if let Some(kind) = section_kind(k) {
            self.facts.workspace_sections.push(WorkspaceSectionFact { kind, span: node.span });
            assert(collected_state(self.facts) =~= own_facts(st, *node, parent@, owner@));
        } else if node.has_kind("scope_statement") && crate::text::str_eq(parent, "configuration_block") {
            if let Some(v) = value_from_field(node, "value") {
                let scope = WorkspaceScope::from_raw(v.normalized_text.as_str());
                assert(scope_model(scope) == scope_of(v.normalized_text@));
                let f = ConfigurationScopeFact { scope, value: v, span: node.span };
                let ghost before = self.facts.configuration_scopes@;
                self.facts.configuration_scopes.push(f);
                assert(self.facts.configuration_scopes@.map_values(|f: ConfigurationScopeFact| scope_fact_model(f))
                    =~= before.map_values(|f: ConfigurationScopeFact| scope_fact_model(f)).push(scope_fact_model(f)));
                assert(collected_state(self.facts) =~= own_facts(st, *node, parent@, owner@));
            }
        } else if node.has_kind("property_entry") {
            let name = value_from_field(node, "name");
            let value = value_from_field(node, "value");
            if let (Some(a), Some(v)) = (name, value) {
                let f = PropertyFact { name: a, value: v, span: node.span, container_node_kind: owner.to_owned() };
                let ghost before = self.facts.property_facts@;
                self.facts.property_facts.push(f);
                assert(self.facts.property_facts@.map_values(|f: PropertyFact| property_model(f)) =~= before.map_values(
                    |f: PropertyFact| property_model(f),
                ).push(property_model(f)));
                assert(collected_state(self.facts) =~= own_facts(st, *node, parent@, owner@));
            }
        } else if node.has_kind("docs_directive") || node.has_kind("adrs_directive") {
            if let Some(p) = value_from_field(node, "path") {
                let kind = if node.has_kind("docs_directive") {
                    ResourceDirectiveKind::Docs
                } else {
                    ResourceDirectiveKind::Adrs
                };
                let f = ResourceDirectiveFact {
                    kind,
                    path: p,
                    importer: value_from_field(node, "importer"),
                    span: node.span,
                    container_node_kind: parent.to_owned(),
                };
                let ghost before = self.facts.resource_directives@;
                self.facts.resource_directives.push(f);
                assert(self.facts.resource_directives@.map_values(|f: ResourceDirectiveFact| resource_model(f))
                    =~= before.map_values(|f: ResourceDirectiveFact| resource_model(f)).push(resource_model(f)));
                assert(collected_state(self.facts) =~= own_facts(st, *node, parent@, owner@));
            }
        } else if node.has_kind("element_directive") {
            if let Some(t) = value_from_field(node, "target") {
                let f = ElementDirectiveFact { target: t, span: node.span, container_node_kind: parent.to_owned() };
                let ghost before = self.facts.element_directives@;
                self.facts.element_directives.push(f);
                assert(self.facts.element_directives@.map_values(|f: ElementDirectiveFact| element_directive_model(f))
                    =~= before.map_values(|f: ElementDirectiveFact| element_directive_model(f)).push(
                    element_directive_model(f),
                ));
                assert(collected_state(self.facts) =~= own_facts(st, *node, parent@, owner@));
            }
        } else if node.has_kind("relationship") || node.has_kind("nested_relationship") {
            if let Some(f) = relationship_fact(node) {
                let ghost before = self.facts.relationship_facts@;
                self.facts.relationship_facts.push(f);
                assert(self.facts.relationship_facts@.map_values(|f: RelationshipFact| relationship_model(f))
                    =~= before.map_values(|f: RelationshipFact| relationship_model(f)).push(relationship_model(f)));
                assert(collected_state(self.facts) =~= own_facts(st, *node, parent@, owner@));
            }
        } else if let Some(kind) = view_kind(k) {
            let f = view_fact(node, kind);
            let ghost before = self.facts.view_facts@;
            self.facts.view_facts.push(f);
            assert(self.facts.view_facts@.map_values(|f: ViewFact| view_model(f)) =~= before.map_values(
                |f: ViewFact| view_model(f),
            ).push(view_model(f)));
            assert(collected_state(self.facts) =~= own_facts(st, *node, parent@, owner@));
        }
    }

    /// Visits `node` and its named descendants in pre-order; `parent` is the kind of its
    /// parent (or `source_file`) and `owner` that of its nearest ancestor that is not a
    /// `properties_block`.
    pub fn visit(&mut self, node: &SyntaxNode, parent: &str, owner: &str)
        ensures
            collected_state(final(self).facts) == semantic_visit(collected_state(old(self).facts), *node, parent@, owner@),
        decreases node,
    {
        self.own_facts(node, parent, owner);
        let below: &str = if node.has_kind("properties_block") {
            owner
        } else {
            node.kind.as_str()
        };
        let ghost st1 = collected_state(self.facts);
        let mut i: usize = 0;
        while i < node.children.len()
            invariant
                i <= node.children.len(),
                below@ == owner_below(node.kind@, owner@),
                collected_state(self.facts) == semantic_visit_list(st1, node.children@.take(i as int), node.kind@, below@),
            decreases node.children.len() - i,
        {
            let c = &node.children[i];
            if c.is_named {
                self.visit(c, node.kind.as_str(), below);
            }
            proof {
                assert(node.children@.take(i + 1).drop_last() =~= node.children@.take(i as int));
            }
            i = i + 1;
        }
        assert(node.children@.take(node.children.len() as int) =~= node.children@);
    }
}

/// The semantic facts of the tree rooted at `root`, each list in pre-order.
pub fn collect(root: &SyntaxNode) -> (r: CollectedSemanticFacts)
    ensures
        collected_state(r) == semantic_visit(empty_semantic_state(), *root, "source_file"@, "source_file"@),
{
    let facts = CollectedSemanticFacts {
        workspace_sections: Vec::new(),
        configuration_scopes: Vec::new(),
        property_facts: Vec::new(),
        resource_directives: Vec::new(),
        element_directives: Vec::new(),
        relationship_facts: Vec::new(),
        view_facts: Vec::new(),
    };
    assert(collected_state(facts).sections =~= Seq::empty());
    assert(collected_state(facts).scopes =~= Seq::empty());
    assert(collected_state(facts).properties =~= Seq::empty());
    assert(collected_state(facts).resources =~= Seq::empty());
    assert(collected_state(facts).elements =~= Seq::empty());
    assert(collected_state(facts).relationships =~= Seq::empty());
    assert(collected_state(facts).views =~= Seq::empty());
    let mut collector = SemanticCollector { facts };
    collector.visit(root, "source_file", "source_file");
    collector.facts
}

} // verus!
