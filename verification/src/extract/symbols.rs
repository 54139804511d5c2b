//! Extraction of declaration symbols and references from a syntax tree.

use vstd::prelude::*;

use crate::extract::fields::normalized_nonempty_text;
use crate::extract::fields::normalized_text;
use crate::extract::archetypes::{archetype_definitions, collect_supported_archetype_symbol_kinds, resolution_ok};
use crate::extract::metadata::declaration_metadata;
use crate::extract::symbol_model::{
    archetype_instance_kind, bound_id, declared_name, dynamic_refs_list, dynamic_refs_spec, dynamic_view_spec,
    element_kind_of, endpoint_surface, first_kind_entry, identifier_child, instance_kind_of, instance_target_spec,
    is_deployment_scope_kind, kind_lookup, named_deployment_kind_of, next_id, push_declaration_spec,
    push_endpoint_spec, push_instance_spec, push_named_deployment_spec, push_reference_spec,
    push_relationship_spec, push_symbol_spec, reference_model, reference_models, relationship_refs_spec,
    statement_refs_list, statement_refs_spec, symbol_model, symbol_models, view_refs_spec, view_values_spec,
    visit_list, visit_spec, ExtractState, ReferenceModel, SymbolModel,
};
use crate::symbols::{Reference, ReferenceKind, ReferenceTargetHint, Symbol, SymbolId, SymbolKind};
use crate::syntax::SyntaxNode;

verus! {

/// Archetype names with the symbol kind each resolves to, taken by their views.
pub open spec fn kinds_view(v: Seq<(String, SymbolKind)>) -> Seq<(Seq<char>, SymbolKind)> {
    v.map_values(|e: (String, SymbolKind)| (e.0@, e.1))
}

/// An optional borrowed node taken by value.
pub open spec fn opt_node(o: Option<&SyntaxNode>) -> Option<SyntaxNode> {
    match o {
        Some(n) => Some(*n),
        None => None,
    }
}

pub open spec fn empty_state() -> ExtractState {
    ExtractState { symbols: Seq::empty(), references: Seq::empty() }
}

pub proof fn lemma_first_kind_entry_is(ks: Seq<(Seq<char>, SymbolKind)>, name: Seq<char>, i: int)
    requires
        0 <= i < ks.len(),
        ks[i].0 == name,
        forall|j: int| 0 <= j < i ==> (#[trigger] ks[j]).0 != name,
    ensures
        first_kind_entry(ks, name) == i,
    decreases i,
{
    if i > 0 {
        assert forall|j: int| 0 <= j < i - 1 implies (#[trigger] ks.drop_first()[j]).0 != name by {
            assert(ks.drop_first()[j] == ks[j + 1]);
        }
        lemma_first_kind_entry_is(ks.drop_first(), name, i - 1);
    }
}

pub proof fn lemma_first_kind_entry_none(ks: Seq<(Seq<char>, SymbolKind)>, name: Seq<char>)
    requires
        forall|j: int| 0 <= j < ks.len() ==> (#[trigger] ks[j]).0 != name,
    ensures
        first_kind_entry(ks, name) == ks.len(),
    decreases ks.len(),
{
    if ks.len() > 0 {
        assert forall|j: int| 0 <= j < ks.len() - 1 implies (#[trigger] ks.drop_first()[j]).0 != name by {
            assert(ks.drop_first()[j] == ks[j + 1]);
        }
        lemma_first_kind_entry_none(ks.drop_first(), name);
    }
}

/// The kind recorded for `name`, from its first entry.
pub fn lookup_kind(kinds: &Vec<(String, SymbolKind)>, name: &str) -> (r: Option<SymbolKind>)
    ensures
        r == kind_lookup(kinds_view(kinds@), name@),
{
    let ghost ks = kinds_view(kinds@);
    let mut i: usize = 0;
    while i < kinds.len()
        invariant
            ks == kinds_view(kinds@),
            i <= kinds.len(),
            forall|j: int| 0 <= j < i ==> (#[trigger] ks[j]).0 != name@,
        decreases kinds.len() - i,
    {
        if crate::text::str_eq(kinds[i].0.as_str(), name) {
            proof {
                lemma_first_kind_entry_is(ks, name@, i as int);
            }
            return Some(kinds[i].1);
        }
        i = i + 1;
    }
    proof {
        lemma_first_kind_entry_none(ks, name@);
    }
    None
}

/// The symbol kind of an element declaration node kind.
pub fn element_symbol_kind(node_kind: &str) -> (r: Option<SymbolKind>)
    ensures
        r == element_kind_of(node_kind@),
{
    if crate::text::str_eq(node_kind, "person") {
        Some(SymbolKind::Person)
    } else if crate::text::str_eq(node_kind, "software_system") {
        Some(SymbolKind::SoftwareSystem)
    } else if crate::text::str_eq(node_kind, "container") {
        Some(SymbolKind::Container)
    } else if crate::text::str_eq(node_kind, "component") {
        Some(SymbolKind::Component)
    } else {
        None
    }
}

/// The symbol kind of a named deployment declaration node kind.
pub fn named_deployment_symbol_kind(node_kind: &str) -> (r: Option<SymbolKind>)
    ensures
        r == named_deployment_kind_of(node_kind@),
{
    if crate::text::str_eq(node_kind, "deployment_environment") {
        Some(SymbolKind::DeploymentEnvironment)
    } else if crate::text::str_eq(node_kind, "deployment_node") {
        Some(SymbolKind::DeploymentNode)
    } else if crate::text::str_eq(node_kind, "infrastructure_node") {
        Some(SymbolKind::InfrastructureNode)
    } else {
        None
    }
}

/// The symbol kind of a deployment instance node kind.
pub fn instance_symbol_kind(node_kind: &str) -> (r: Option<SymbolKind>)
    ensures
        r == instance_kind_of(node_kind@),
{
    if crate::text::str_eq(node_kind, "container_instance") {
        Some(SymbolKind::ContainerInstance)
    } else if crate::text::str_eq(node_kind, "software_system_instance") {
        Some(SymbolKind::SoftwareSystemInstance)
    } else {
        None
    }
}

/// Whether a relationship below a node of this kind is a deployment relationship.
pub fn is_deployment_scope(node_kind: &str) -> (r: bool)
    ensures
        r == is_deployment_scope_kind(node_kind@),
{
    crate::text::str_eq(node_kind, "deployment_environment") || crate::text::str_eq(
        node_kind,
        "deployment_environment_block",
    ) || crate::text::str_eq(node_kind, "deployment_node") || crate::text::str_eq(node_kind, "deployment_node_block")
        || crate::text::str_eq(node_kind, "infrastructure_node") || crate::text::str_eq(node_kind, "container_instance")
        || crate::text::str_eq(node_kind, "software_system_instance") || crate::text::str_eq(
        node_kind,
        "deployment_instance_block",
    )
}

/// The endpoint reference kinds and hint of a relationship, by whether it sits in a
/// deployment scope.
pub fn relationship_reference_surface(in_deployment: bool) -> (r: (ReferenceKind, ReferenceKind, ReferenceTargetHint))
    ensures
        r == endpoint_surface(in_deployment),
{
    if in_deployment {
        (
            ReferenceKind::DeploymentRelationshipSource,
            ReferenceKind::DeploymentRelationshipDestination,
            ReferenceTargetHint::Deployment,
        )
    } else {
        (ReferenceKind::RelationshipSource, ReferenceKind::RelationshipDestination, ReferenceTargetHint::Element)
    }
}

/// The `identifier` child of `n` when it is an identifier node.
pub fn identifier_node(n: &SyntaxNode) -> (r: Option<&SyntaxNode>)
    ensures
        opt_node(r) == identifier_child(*n),
{
    match n.child_by_field_name("identifier") {
        Some(c) => if c.has_kind("identifier") {
            Some(c)
        } else {
            None
        },
        None => None,
    }
}

/// The display name of a declaration: its normalized `name`, else its node kind.
fn declared_display_name(n: &SyntaxNode) -> (r: String)
    ensures
        r@ == declared_name(*n),
{
    match n.child_by_field_name("name") {
        Some(c) => normalized_text(c),
        None => n.kind.clone(),
    }
}

/// Walks a syntax tree and records symbols and references.
pub struct SymbolExtractor {
    /// Archetype names with the element kind each resolves to.
    pub archetype_symbol_kinds: Vec<(String, SymbolKind)>,
    /// The symbols found so far; each one's id is its index.
    pub symbols: Vec<Symbol>,
    /// The references found so far.
    pub references: Vec<Reference>,
}

/// The symbols and references of an extractor as plain values.
pub open spec fn state_of(x: SymbolExtractor) -> ExtractState {
    ExtractState { symbols: symbol_models(x.symbols@), references: reference_models(x.references@) }
}

impl SymbolExtractor {
    /// An extractor that has found nothing yet.
    pub fn new(archetype_symbol_kinds: Vec<(String, SymbolKind)>) -> (r: Self)
        ensures
            r.archetype_symbol_kinds@ == archetype_symbol_kinds@,
            state_of(r) == empty_state(),
    {
        let r = SymbolExtractor { archetype_symbol_kinds, symbols: Vec::new(), references: Vec::new() };
        assert(state_of(r).symbols =~= Seq::<SymbolModel>::empty());
        assert(state_of(r).references =~= Seq::<ReferenceModel>::empty());
        r
    }

    fn push_symbol(
        &mut self,
        n: &SyntaxNode,
        kind: SymbolKind,
        display_name: String,
        binding: Option<&SyntaxNode>,
        parent: Option<SymbolId>,
    ) -> (r: SymbolId)
        ensures
            final(self).archetype_symbol_kinds@ == old(self).archetype_symbol_kinds@,
            r == next_id(state_of(*old(self))),
            state_of(*final(self)) == push_symbol_spec(state_of(*old(self)), *n, kind, display_name@, opt_node(binding), parent),
    {
        let metadata = declaration_metadata(n);
        let id = SymbolId(self.symbols.len());
        let (binding_name, binding_span) = match binding {
            Some(b) => (Some(b.text.clone()), Some(b.span)),
            None => (None, None),
        };
        let sym = Symbol {
            id,
            kind,
            display_name,
            binding_name,
            binding_span,
            description: metadata.description,
            technology: metadata.technology,
            tags: metadata.tags,
            url: metadata.url,
            span: n.span,
            parent,
            syntax_node_kind: n.kind.clone(),
        };
        let ghost before = self.symbols@;
        self.symbols.push(sym);
        assert(symbol_models(self.symbols@) =~= symbol_models(before).push(symbol_model(sym)));
        id
    }

    fn push_reference(
        &mut self,
        kind: ReferenceKind,
        at: &SyntaxNode,
        hint: ReferenceTargetHint,
        container: &str,
        containing: Option<SymbolId>,
    )
        ensures
            final(self).archetype_symbol_kinds@ == old(self).archetype_symbol_kinds@,
            state_of(*final(self)) == push_reference_spec(state_of(*old(self)), kind, *at, hint, container@, containing),
    {
        let reference = Reference {
            kind,
            raw_text: at.text.clone(),
            span: at.span,
            target_hint: hint,
            container_node_kind: container.to_owned(),
            containing_symbol: containing,
        };
        let ghost before = self.references@;
        self.references.push(reference);
        assert(reference_models(self.references@) =~= reference_models(before).push(reference_model(reference)));
    }

    fn push_declaration_symbol(&mut self, n: &SyntaxNode, kind: SymbolKind, parent: Option<SymbolId>) -> (r: SymbolId)
        ensures
            final(self).archetype_symbol_kinds@ == old(self).archetype_symbol_kinds@,
            r == next_id(state_of(*old(self))),
            state_of(*final(self)) == push_declaration_spec(state_of(*old(self)), *n, kind, parent),
    {
        let display_name = declared_display_name(n);
        let binding = identifier_node(n);
        self.push_symbol(n, kind, display_name, binding, parent)
    }

    fn push_relationship_symbol(&mut self, n: &SyntaxNode, parent: Option<SymbolId>) -> (r: Option<SymbolId>)
        ensures
            final(self).archetype_symbol_kinds@ == old(self).archetype_symbol_kinds@,
            r == bound_id(state_of(*old(self)), *n),
            state_of(*final(self)) == push_relationship_spec(state_of(*old(self)), *n, parent),
    {
        let c = match identifier_node(n) {
            Some(c) => c,
            None => return None,
        };
        let display_name = match n.child_by_field_name("attribute") {
            Some(a) => match normalized_nonempty_text(a) {
                Some(t) => t,
                None => c.text.clone(),
            },
            None => c.text.clone(),
        };
        Some(self.push_symbol(n, SymbolKind::Relationship, display_name, Some(c), parent))
    }

    fn push_named_deployment_symbol(&mut self, n: &SyntaxNode, kind: SymbolKind, parent: Option<SymbolId>) -> (r: Option<SymbolId>)
        ensures
            final(self).archetype_symbol_kinds@ == old(self).archetype_symbol_kinds@,
            r == bound_id(state_of(*old(self)), *n),
            state_of(*final(self)) == push_named_deployment_spec(state_of(*old(self)), *n, kind, parent),
    {
        let c = match identifier_node(n) {
            Some(c) => c,
            None => return None,
        };
        let display_name = declared_display_name(n);
        Some(self.push_symbol(n, kind, display_name, Some(c), parent))
    }

    fn push_instance_symbol(&mut self, n: &SyntaxNode, kind: SymbolKind, parent: Option<SymbolId>) -> (r: Option<SymbolId>)
        ensures
            final(self).archetype_symbol_kinds@ == old(self).archetype_symbol_kinds@,
            r == bound_id(state_of(*old(self)), *n),
            state_of(*final(self)) == push_instance_spec(state_of(*old(self)), *n, kind, parent),
    {
        let c = match identifier_node(n) {
            Some(c) => c,
            None => return None,
        };
        let display_name = c.text.clone();
        Some(self.push_symbol(n, kind, display_name, Some(c), parent))
    }

    fn push_endpoint_reference(
        &mut self,
        rel: &SyntaxNode,
        field: &str,
        kind: ReferenceKind,
        hint: ReferenceTargetHint,
        containing: Option<SymbolId>,
    )
        ensures
            final(self).archetype_symbol_kinds@ == old(self).archetype_symbol_kinds@,
            state_of(*final(self)) == push_endpoint_spec(state_of(*old(self)), *rel, field@, kind, hint, containing),
    {
        if let Some(e) = rel.child_by_field_name(field) {
            if e.has_kind("identifier") || e.has_kind("this_keyword") {
                self.push_reference(kind, e, hint, rel.kind.as_str(), containing);
            }
        }
    }

    fn collect_relationship_references(&mut self, rel: &SyntaxNode, containing: Option<SymbolId>, in_deployment: bool)
        ensures
            final(self).archetype_symbol_kinds@ == old(self).archetype_symbol_kinds@,
            state_of(*final(self)) == relationship_refs_spec(state_of(*old(self)), *rel, containing, in_deployment),
    {
        let (source_kind, destination_kind, hint) = relationship_reference_surface(in_deployment);
        self.push_endpoint_reference(rel, "source", source_kind, hint, containing);
        self.push_endpoint_reference(rel, "destination", destination_kind, hint, containing);
    }

    fn push_instance_target_reference(&mut self, inst: &SyntaxNode, containing: Option<SymbolId>)
        ensures
            final(self).archetype_symbol_kinds@ == old(self).archetype_symbol_kinds@,
            state_of(*final(self)) == instance_target_spec(state_of(*old(self)), *inst, containing),
    {
        if let Some(t) = inst.child_by_field_name("target") {
            if t.has_kind("identifier") {
                self.push_reference(ReferenceKind::InstanceTarget, t, ReferenceTargetHint::Element, inst.kind.as_str(), containing);
            }
        }
    }

    fn push_view_values(
        &mut self,
        node: &SyntaxNode,
        kind: ReferenceKind,
        hint: ReferenceTargetHint,
        view_kind: &str,
        parent: Option<SymbolId>,
    )
        ensures
            final(self).archetype_symbol_kinds@ == old(self).archetype_symbol_kinds@,
            state_of(*final(self)) == view_values_spec(state_of(*old(self)), node.children@, kind, hint, view_kind@, parent),
    {
        let ghost st0 = state_of(*self);
        let mut i: usize = 0;
        while i < node.children.len()
            invariant
                i <= node.children.len(),
                self.archetype_symbol_kinds@ == old(self).archetype_symbol_kinds@,
                st0 == state_of(*old(self)),
                state_of(*self) == view_values_spec(st0, node.children@.take(i as int), kind, hint, view_kind@, parent),
            decreases node.children.len() - i,
        {
            let c = &node.children[i];
            if c.is_named && c.has_kind("identifier") {
                self.push_reference(kind, c, hint, view_kind, parent);
            }
            proof {
                assert(node.children@.take(i + 1).drop_last() =~= node.children@.take(i as int));
            }
            i = i + 1;
        }
        assert(node.children@.take(node.children.len() as int) =~= node.children@);
    }

    fn collect_statement_references(
        &mut self,
        node: &SyntaxNode,
        stmt: &str,
        kind: ReferenceKind,
        hint: ReferenceTargetHint,
        view_kind: &str,
        parent: Option<SymbolId>,
    )
        ensures
            final(self).archetype_symbol_kinds@ == old(self).archetype_symbol_kinds@,
            state_of(*final(self)) == statement_refs_spec(state_of(*old(self)), *node, stmt@, kind, hint, view_kind@, parent),
        decreases node,
    {
        if node.has_kind(stmt) {
            self.push_view_values(node, kind, hint, view_kind, parent);
            return;
        }
        let ghost st0 = state_of(*self);
        let mut i: usize = 0;
        while i < node.children.len()
            invariant
                i <= node.children.len(),
                self.archetype_symbol_kinds@ == old(self).archetype_symbol_kinds@,
                st0 == state_of(*old(self)),
                state_of(*self) == statement_refs_list(st0, node.children@.take(i as int), stmt@, kind, hint, view_kind@, parent),
            decreases node.children.len() - i,
        {
            let c = &node.children[i];
            if c.is_named {
                self.collect_statement_references(c, stmt, kind, hint, view_kind, parent);
            }
            proof {
                assert(node.children@.take(i + 1).drop_last() =~= node.children@.take(i as int));
            }
            i = i + 1;
        }
        assert(node.children@.take(node.children.len() as int) =~= node.children@);
    }

    fn collect_dynamic_relationship_references(&mut self, node: &SyntaxNode, parent: Option<SymbolId>, in_deployment: bool)
        ensures
            final(self).archetype_symbol_kinds@ == old(self).archetype_symbol_kinds@,
            state_of(*final(self)) == dynamic_refs_spec(state_of(*old(self)), *node, parent, in_deployment),
        decreases node,
    {
        if node.has_kind("dynamic_relationship") {
            self.collect_relationship_references(node, parent, in_deployment);
        }
        let below = in_deployment || is_deployment_scope(node.kind.as_str());
        let ghost st0 = state_of(*self);
        let mut i: usize = 0;
        while i < node.children.len()
            invariant
                i <= node.children.len(),
                self.archetype_symbol_kinds@ == old(self).archetype_symbol_kinds@,
                state_of(*self) == dynamic_refs_list(st0, node.children@.take(i as int), parent, below),
            decreases node.children.len() - i,
        {
            let c = &node.children[i];
            if c.is_named {
                self.collect_dynamic_relationship_references(c, parent, below);
            }
            proof {
                assert(node.children@.take(i + 1).drop_last() =~= node.children@.take(i as int));
            }
            i = i + 1;
        }
        assert(node.children@.take(node.children.len() as int) =~= node.children@);
    }

    fn extract_view(
        &mut self,
        view: &SyntaxNode,
        scope_hint: Option<ReferenceTargetHint>,
        include_hint: Option<ReferenceTargetHint>,
        animation_hint: Option<ReferenceTargetHint>,
        parent: Option<SymbolId>,
    )
        ensures
            final(self).archetype_symbol_kinds@ == old(self).archetype_symbol_kinds@,
            state_of(*final(self)) == view_refs_spec(state_of(*old(self)), *view, scope_hint, include_hint, animation_hint, parent),
    {
        if let Some(h) = scope_hint {
            if let Some(scope) = view.child_by_field_name("scope") {
                if scope.has_kind("identifier") {
                    self.push_reference(ReferenceKind::ViewScope, scope, h, view.kind.as_str(), parent);
                }
            }
        }
        if let Some(body) = view.child_by_field_name("body") {
            if let Some(h) = include_hint {
                self.collect_statement_references(body, "include_statement", ReferenceKind::ViewInclude, h, view.kind.as_str(), parent);
                self.collect_statement_references(body, "exclude_statement", ReferenceKind::ViewExclude, h, view.kind.as_str(), parent);
            }
            if let Some(h) = animation_hint {
                self.collect_statement_references(body, "animation_block", ReferenceKind::ViewAnimation, h, view.kind.as_str(), parent);
            }
        }
    }

    fn extract_dynamic_view(&mut self, view: &SyntaxNode, parent: Option<SymbolId>, body_in_deployment: bool)
        ensures
            final(self).archetype_symbol_kinds@ == old(self).archetype_symbol_kinds@,
            state_of(*final(self)) == dynamic_view_spec(state_of(*old(self)), *view, parent, body_in_deployment),
    {
        self.extract_view(view, Some(ReferenceTargetHint::Element), None, None, parent);
        if let Some(body) = view.child_by_field_name("body") {
            self.collect_dynamic_relationship_references(body, parent, body_in_deployment);
        }
    }

    fn archetype_instance_symbol_kind(&self, n: &SyntaxNode) -> (r: Option<SymbolKind>)
        ensures
            r == archetype_instance_kind(kinds_view(self.archetype_symbol_kinds@), *n),
    {
        if !n.has_kind("archetype_instance") {
            return None;
        }
        match n.child_by_field_name("kind") {
            Some(a) => lookup_kind(&self.archetype_symbol_kinds, a.text.as_str()),
            None => None,
        }
    }

    /// Visits node `n` below symbol `parent`; `in_deployment` tells whether a strict ancestor
    /// of `n` is a deployment scope.
    pub fn visit(&mut self, node: &SyntaxNode, parent: Option<SymbolId>, in_deployment: bool)
        ensures
            final(self).archetype_symbol_kinds@ == old(self).archetype_symbol_kinds@,
            state_of(*final(self)) == visit_spec(
                kinds_view(old(self).archetype_symbol_kinds@),
                state_of(*old(self)),
                *node,
                parent,
                in_deployment,
            ),
        decreases node, 1int,
    {
        let below = in_deployment || is_deployment_scope(node.kind.as_str());
        let k = node.kind.as_str();
        if let Some(kind) = element_symbol_kind(k) {
            let id = self.push_declaration_symbol(node, kind, parent);
            self.visit_children(node, Some(id), below);
            return;
        }
        if let Some(kind) = self.archetype_instance_symbol_kind(node) {
            let id = self.push_declaration_symbol(node, kind, parent);
            self.visit_children(node, Some(id), below);
            return;
        }
        if let Some(kind) = named_deployment_symbol_kind(k) {
            let id = self.push_named_deployment_symbol(node, kind, parent);
            let c = match id {
                Some(_) => id,
                None => parent,
            };
            self.visit_children(node, c, below);
            return;
        }
        if let Some(kind) = instance_symbol_kind(k) {
            let id = self.push_instance_symbol(node, kind, parent);
            let c = match id {
                Some(_) => id,
                None => parent,
            };
            self.push_instance_target_reference(node, c);
            self.visit_children(node, c, below);
            return;
        }
        if crate::text::str_eq(k, "relationship") {
            let id = self.push_relationship_symbol(node, parent);
            let c = match id {
                Some(_) => id,
                None => parent,
            };
            self.collect_relationship_references(node, c, in_deployment);
            self.visit_children(node, c, below);
        } else if crate::text::str_eq(k, "nested_relationship") {
            self.collect_relationship_references(node, parent, in_deployment);
            self.visit_children(node, parent, below);
        } else if crate::text::str_eq(k, "system_landscape_view") {
            self.extract_view(
                node,
                None,
                Some(ReferenceTargetHint::ElementOrRelationship),
                Some(ReferenceTargetHint::Element),
                parent,
            );
        } else if crate::text::str_eq(k, "system_context_view") || crate::text::str_eq(k, "container_view")
            || crate::text::str_eq(k, "component_view") {
            self.extract_view(
                node,
                Some(ReferenceTargetHint::Element),
                Some(ReferenceTargetHint::ElementOrRelationship),
                Some(ReferenceTargetHint::Element),
                parent,
            );
        } else if crate::text::str_eq(k, "deployment_view") {
            self.extract_view(
                node,
                Some(ReferenceTargetHint::Element),
                Some(ReferenceTargetHint::Deployment),
                Some(ReferenceTargetHint::Deployment),
                parent,
            );
        } else if crate::text::str_eq(k, "dynamic_view") {
            self.extract_dynamic_view(node, parent, below);
        } else {
            self.visit_children(node, parent, below);
        }
    }

    /// Visits the named children of `node` in order.
    pub fn visit_children(&mut self, node: &SyntaxNode, parent: Option<SymbolId>, in_deployment: bool)
        ensures
            final(self).archetype_symbol_kinds@ == old(self).archetype_symbol_kinds@,
            state_of(*final(self)) == visit_list(
                kinds_view(old(self).archetype_symbol_kinds@),
                state_of(*old(self)),
                node.children@,
                parent,
                in_deployment,
            ),
        decreases node, 0int,
    {
        let ghost ks = kinds_view(self.archetype_symbol_kinds@);
        let ghost st0 = state_of(*self);
        let mut i: usize = 0;
        while i < node.children.len()
            invariant
                i <= node.children.len(),
                self.archetype_symbol_kinds@ == old(self).archetype_symbol_kinds@,
                ks == kinds_view(old(self).archetype_symbol_kinds@),
                st0 == state_of(*old(self)),
                state_of(*self) == visit_list(ks, st0, node.children@.take(i as int), parent, in_deployment),
            decreases node.children.len() - i,
        {
            let c = &node.children[i];
            if c.is_named {
                self.visit(c, parent, in_deployment);
            }
            proof {
                assert(node.children@.take(i + 1).drop_last() =~= node.children@.take(i as int));
            }
            i = i + 1;
        }
        assert(node.children@.take(node.children.len() as int) =~= node.children@);
    }
}

/// The symbols and references of the tree rooted at `root`, given the resolved archetype
/// kinds, in one pre-order pass.
pub fn extract_symbols_and_references(root: &SyntaxNode, archetype_symbol_kinds: Vec<(String, SymbolKind)>) -> (r: (
    Vec<Symbol>,
    Vec<Reference>,
))
    ensures
        (ExtractState { symbols: symbol_models(r.0@), references: reference_models(r.1@) }) == visit_spec(
            kinds_view(archetype_symbol_kinds@),
            empty_state(),
            *root,
            None,
            false,
        ),
{
    let mut extractor = SymbolExtractor::new(archetype_symbol_kinds);
    extractor.visit(root, None, false);
    (extractor.symbols, extractor.references)
}

/// The symbols and references of the tree rooted at `root`, in one pre-order pass, with
/// archetype instances typed by the kinds their archetypes resolve to.
pub fn collect_symbols_and_references(root: &SyntaxNode) -> (r: (Vec<Symbol>, Vec<Reference>))
    ensures
        exists|kinds: Seq<(Seq<char>, SymbolKind)>|
            resolution_ok(archetype_definitions(*root), kinds) && (ExtractState {
                symbols: symbol_models(r.0@),
                references: reference_models(r.1@),
            }) == visit_spec(kinds, empty_state(), *root, None, false),
{
    let kinds = collect_supported_archetype_symbol_kinds(root);
    let ghost kv = kinds_view(kinds@);
    let r = extract_symbols_and_references(root, kinds);
    assert(resolution_ok(archetype_definitions(*root), kv));
    r
}

} // verus!
