//! What symbol and reference extraction yields for a syntax tree, as plain values.

use vstd::prelude::*;

use crate::extract::fields::{nonempty, norm_text};
use crate::extract::metadata::{declaration_meta, MetaModel};
use crate::span::TextSpan;
use crate::symbols::{Reference, ReferenceKind, ReferenceTargetHint, Symbol, SymbolId, SymbolKind};
use crate::syntax::{field_child, SyntaxNode};
use crate::workspace::bindings::opt_view;
use crate::workspace::resolve::strs;

verus! {

/// A symbol as plain values.
pub struct SymbolModel {
    pub id: SymbolId,
    pub kind: SymbolKind,
    pub display_name: Seq<char>,
    pub binding_name: Option<Seq<char>>,
    pub binding_span: Option<TextSpan>,
    pub meta: MetaModel,
    pub span: TextSpan,
    pub parent: Option<SymbolId>,
    pub syntax_node_kind: Seq<char>,
}

/// A reference as plain values.
pub struct ReferenceModel {
    pub kind: ReferenceKind,
    pub raw_text: Seq<char>,
    pub span: TextSpan,
    pub target_hint: ReferenceTargetHint,
    pub container_node_kind: Seq<char>,
    pub containing_symbol: Option<SymbolId>,
}

/// The symbols and references extracted so far.
pub struct ExtractState {
    pub symbols: Seq<SymbolModel>,
    pub references: Seq<ReferenceModel>,
}

pub open spec fn symbol_model(s: Symbol) -> SymbolModel {
    SymbolModel {
        id: s.id,
        kind: s.kind,
        display_name: s.display_name@,
        binding_name: opt_view(s.binding_name),
        binding_span: s.binding_span,
        meta: MetaModel {
            description: opt_view(s.description),
            technology: opt_view(s.technology),
            tags: strs(s.tags@),
            url: opt_view(s.url),
        },
        span: s.span,
        parent: s.parent,
        syntax_node_kind: s.syntax_node_kind@,
    }
}

pub open spec fn reference_model(r: Reference) -> ReferenceModel {
    ReferenceModel {
        kind: r.kind,
        raw_text: r.raw_text@,
        span: r.span,
        target_hint: r.target_hint,
        container_node_kind: r.container_node_kind@,
        containing_symbol: r.containing_symbol,
    }
}

pub open spec fn symbol_models(v: Seq<Symbol>) -> Seq<SymbolModel> {
    v.map_values(|s: Symbol| symbol_model(s))
}

pub open spec fn reference_models(v: Seq<Reference>) -> Seq<ReferenceModel> {
    v.map_values(|r: Reference| reference_model(r))
}

/// Element declaration kinds by node kind.
pub open spec fn element_kind_of(k: Seq<char>) -> Option<SymbolKind> {
    if k == "person"@ {
        Some(SymbolKind::Person)
    } else if k == "software_system"@ {
        Some(SymbolKind::SoftwareSystem)
    } else if k == "container"@ {
        Some(SymbolKind::Container)
    } else if k == "component"@ {
        Some(SymbolKind::Component)
    } else {
        None
    }
}

/// Named deployment declaration kinds by node kind.
pub open spec fn named_deployment_kind_of(k: Seq<char>) -> Option<SymbolKind> {
    if k == "deployment_environment"@ {
        Some(SymbolKind::DeploymentEnvironment)
    } else if k == "deployment_node"@ {
        Some(SymbolKind::DeploymentNode)
    } else if k == "infrastructure_node"@ {
        Some(SymbolKind::InfrastructureNode)
    } else {
        None
    }
}

/// Deployment instance kinds by node kind.
pub open spec fn instance_kind_of(k: Seq<char>) -> Option<SymbolKind> {
    if k == "container_instance"@ {
        Some(SymbolKind::ContainerInstance)
    } else if k == "software_system_instance"@ {
        Some(SymbolKind::SoftwareSystemInstance)
    } else {
        None
    }
}

/// Node kinds below which a relationship is a deployment relationship.
pub open spec fn is_deployment_scope_kind(k: Seq<char>) -> bool {
    k == "deployment_environment"@ || k == "deployment_environment_block"@ || k == "deployment_node"@
        || k == "deployment_node_block"@ || k == "infrastructure_node"@ || k == "container_instance"@ || k
        == "software_system_instance"@ || k == "deployment_instance_block"@
}

/// Index of the first entry of `kinds` named `name`, or `kinds.len()`.
pub open spec fn first_kind_entry(kinds: Seq<(Seq<char>, SymbolKind)>, name: Seq<char>) -> nat
    decreases kinds.len(),
{
    if kinds.len() == 0 {
        0
    } else if kinds[0].0 == name {
        0
    } else {
        1 + first_kind_entry(kinds.drop_first(), name)
    }
}

/// The kind recorded for `name` in `kinds`.
pub open spec fn kind_lookup(kinds: Seq<(Seq<char>, SymbolKind)>, name: Seq<char>) -> Option<SymbolKind> {
    let i = first_kind_entry(kinds, name);
    if i < kinds.len() {
        Some(kinds[i as int].1)
    } else {
        None
    }
}

/// The symbol kind of an `archetype_instance` node whose archetype resolves to one.
pub open spec fn archetype_instance_kind(kinds: Seq<(Seq<char>, SymbolKind)>, n: SyntaxNode) -> Option<SymbolKind> {
    if n.kind@ != "archetype_instance"@ {
        None
    } else {
        match field_child(n, "kind"@) {
            Some(a) => kind_lookup(kinds, a.text@),
            None => None,
        }
    }
}

/// The `identifier` child of `n` when it is an identifier node.
pub open spec fn identifier_child(n: SyntaxNode) -> Option<SyntaxNode> {
    match field_child(n, "identifier"@) {
        Some(c) => if c.kind@ == "identifier"@ {
            Some(c)
        } else {
            None
        },
        None => None,
    }
}

/// The display name of a declaration: its normalized `name`, else its node kind.
pub open spec fn declared_name(n: SyntaxNode) -> Seq<char> {
    match field_child(n, "name"@) {
        Some(c) => norm_text(c),
        None => n.kind@,
    }
}

/// The display name of a relationship: its first non-empty `attribute`, else its identifier.
pub open spec fn relationship_name(n: SyntaxNode, identifier: Seq<char>) -> Seq<char> {
    match field_child(n, "attribute"@) {
        Some(a) => match nonempty(norm_text(a)) {
            Some(t) => t,
            None => identifier,
        },
        None => identifier,
    }
}

/// `parent` unless `id` names a symbol.
pub open spec fn or_parent(id: Option<SymbolId>, parent: Option<SymbolId>) -> Option<SymbolId> {
    if id is Some {
        id
    } else {
        parent
    }
}

/// The id the next symbol pushed onto `st` gets.
pub open spec fn next_id(st: ExtractState) -> SymbolId {
    SymbolId(st.symbols.len() as usize)
}

/// `st` with one symbol for node `n` added.
pub open spec fn push_symbol_spec(
    st: ExtractState,
    n: SyntaxNode,
    kind: SymbolKind,
    display_name: Seq<char>,
    binding: Option<SyntaxNode>,
    parent: Option<SymbolId>,
) -> ExtractState {
    ExtractState {
        symbols: st.symbols.push(
            SymbolModel {
                id: next_id(st),
                kind,
                display_name,
                binding_name: match binding {
                    Some(b) => Some(b.text@),
                    None => None,
                },
                binding_span: match binding {
                    Some(b) => Some(b.span),
                    None => None,
                },
                meta: declaration_meta(n),
                span: n.span,
                parent,
                syntax_node_kind: n.kind@,
            },
        ),
        references: st.references,
    }
}

/// `st` with a declaration symbol for an element or archetype instance `n`.
pub open spec fn push_declaration_spec(st: ExtractState, n: SyntaxNode, kind: SymbolKind, parent: Option<SymbolId>) -> ExtractState {
    push_symbol_spec(st, n, kind, declared_name(n), identifier_child(n), parent)
}

/// The id given to a declaration that needs an identifier: present only when `n` has one.
pub open spec fn bound_id(st: ExtractState, n: SyntaxNode) -> Option<SymbolId> {
    if identifier_child(n) is Some {
        Some(next_id(st))
    } else {
        None
    }
}

/// `st` with a relationship symbol for `n`, when `n` has an identifier.
pub open spec fn push_relationship_spec(st: ExtractState, n: SyntaxNode, parent: Option<SymbolId>) -> ExtractState {
    match identifier_child(n) {
        Some(c) => push_symbol_spec(st, n, SymbolKind::Relationship, relationship_name(n, c.text@), Some(c), parent),
        None => st,
    }
}

/// `st` with a named deployment symbol for `n`, when `n` has an identifier.
pub open spec fn push_named_deployment_spec(st: ExtractState, n: SyntaxNode, kind: SymbolKind, parent: Option<SymbolId>) -> ExtractState {
    match identifier_child(n) {
        Some(c) => push_symbol_spec(st, n, kind, declared_name(n), Some(c), parent),
        None => st,
    }
}

/// `st` with an instance symbol for `n`, named by its identifier, when it has one.
pub open spec fn push_instance_spec(st: ExtractState, n: SyntaxNode, kind: SymbolKind, parent: Option<SymbolId>) -> ExtractState {
    match identifier_child(n) {
        Some(c) => push_symbol_spec(st, n, kind, c.text@, Some(c), parent),
        None => st,
    }
}

/// `st` with one reference at node `at` added.
pub open spec fn push_reference_spec(
    st: ExtractState,
    kind: ReferenceKind,
    at: SyntaxNode,
    hint: ReferenceTargetHint,
    container: Seq<char>,
    containing: Option<SymbolId>,
) -> ExtractState {
    ExtractState {
        symbols: st.symbols,
        references: st.references.push(
            ReferenceModel {
                kind,
                raw_text: at.text@,
                span: at.span,
                target_hint: hint,
                container_node_kind: container,
                containing_symbol: containing,
            },
        ),
    }
}

/// The reference kinds and hint of a relationship's endpoints.
pub open spec fn endpoint_surface(in_deployment: bool) -> (ReferenceKind, ReferenceKind, ReferenceTargetHint) {
    if in_deployment {
        (
            ReferenceKind::DeploymentRelationshipSource,
            ReferenceKind::DeploymentRelationshipDestination,
            ReferenceTargetHint::Deployment,
        )
    } else {
        (ReferenceKind::RelationshipSource, ReferenceKind::RelationshipDestination, ReferenceTargetHint::Element)
    }
}

/// `st` with a reference for endpoint `field` of `rel`, when it is an identifier or `this`.
pub open spec fn push_endpoint_spec(
    st: ExtractState,
    rel: SyntaxNode,
    field: Seq<char>,
    kind: ReferenceKind,
    hint: ReferenceTargetHint,
    containing: Option<SymbolId>,
) -> ExtractState {
    match field_child(rel, field) {
        Some(e) => if e.kind@ == "identifier"@ || e.kind@ == "this_keyword"@ {
            push_reference_spec(st, kind, e, hint, rel.kind@, containing)
        } else {
            st
        },
        None => st,
    }
}

/// `st` with the source and destination references of `rel`; `in_deployment` tells whether
/// a strict ancestor of `rel` is a deployment scope.
pub open spec fn relationship_refs_spec(st: ExtractState, rel: SyntaxNode, containing: Option<SymbolId>, in_deployment: bool) -> ExtractState {
    let s = endpoint_surface(in_deployment);
    push_endpoint_spec(push_endpoint_spec(st, rel, "source"@, s.0, s.2, containing), rel, "destination"@, s.1, s.2, containing)
}

/// `st` with the target reference of an instance declaration, when it is an identifier.
pub open spec fn instance_target_spec(st: ExtractState, inst: SyntaxNode, containing: Option<SymbolId>) -> ExtractState {
    match field_child(inst, "target"@) {
        Some(t) => if t.kind@ == "identifier"@ {
            push_reference_spec(st, ReferenceKind::InstanceTarget, t, ReferenceTargetHint::Element, inst.kind@, containing)
        } else {
            st
        },
        None => st,
    }
}

/// `st` with a view reference for each named identifier node among `cs`.
pub open spec fn view_values_spec(
    st: ExtractState,
    cs: Seq<SyntaxNode>,
    kind: ReferenceKind,
    hint: ReferenceTargetHint,
    view_kind: Seq<char>,
    parent: Option<SymbolId>,
) -> ExtractState
    decreases cs.len(),
{
    if cs.len() == 0 {
        st
    } else {
        let s = view_values_spec(st, cs.drop_last(), kind, hint, view_kind, parent);
        let c = cs.last();
        if c.is_named && c.kind@ == "identifier"@ {
            push_reference_spec(s, kind, c, hint, view_kind, parent)
        } else {
            s
        }
    }
}

/// `st` with the references of every statement of kind `stmt` found below `n` (not below
/// such a statement), in pre-order.
pub open spec fn statement_refs_spec(
    st: ExtractState,
    n: SyntaxNode,
    stmt: Seq<char>,
    kind: ReferenceKind,
    hint: ReferenceTargetHint,
    view_kind: Seq<char>,
    parent: Option<SymbolId>,
) -> ExtractState
    decreases n,
{
    if n.kind@ == stmt {
        view_values_spec(st, n.children@, kind, hint, view_kind, parent)
    } else {
        statement_refs_list(st, n.children@, stmt, kind, hint, view_kind, parent)
    }
}

pub open spec fn statement_refs_list(
    st: ExtractState,
    cs: Seq<SyntaxNode>,
    stmt: Seq<char>,
    kind: ReferenceKind,
    hint: ReferenceTargetHint,
    view_kind: Seq<char>,
    parent: Option<SymbolId>,
) -> ExtractState
    decreases cs,
{
    if cs.len() == 0 {
        st
    } else {
        let s = statement_refs_list(st, cs.drop_last(), stmt, kind, hint, view_kind, parent);
        if cs.last().is_named {
            statement_refs_spec(s, cs.last(), stmt, kind, hint, view_kind, parent)
        } else {
            s
        }
    }
}

/// `st` with the references of every dynamic relationship below `n`, in pre-order;
/// `in_deployment` tells whether a strict ancestor of `n` is a deployment scope.
pub open spec fn dynamic_refs_spec(st: ExtractState, n: SyntaxNode, parent: Option<SymbolId>, in_deployment: bool) -> ExtractState
    decreases n,
{
    let s = if n.kind@ == "dynamic_relationship"@ {
        relationship_refs_spec(st, n, parent, in_deployment)
    } else {
        st
    };
    dynamic_refs_list(s, n.children@, parent, in_deployment || is_deployment_scope_kind(n.kind@))
}

pub open spec fn dynamic_refs_list(st: ExtractState, cs: Seq<SyntaxNode>, parent: Option<SymbolId>, in_deployment: bool) -> ExtractState
    decreases cs,
{
    if cs.len() == 0 {
        st
    } else {
        let s = dynamic_refs_list(st, cs.drop_last(), parent, in_deployment);
        if cs.last().is_named {
            dynamic_refs_spec(s, cs.last(), parent, in_deployment)
        } else {
            s
        }
    }
}

/// `st` with the scope, include, exclude and animation references of view `view`.
pub open spec fn view_refs_spec(
    st: ExtractState,
    view: SyntaxNode,
    scope_hint: Option<ReferenceTargetHint>,
    include_hint: Option<ReferenceTargetHint>,
    animation_hint: Option<ReferenceTargetHint>,
    parent: Option<SymbolId>,
) -> ExtractState {
    let s1 = match scope_hint {
        Some(h) => match field_child(view, "scope"@) {
            Some(c) => if c.kind@ == "identifier"@ {
                push_reference_spec(st, ReferenceKind::ViewScope, c, h, view.kind@, parent)
            } else {
                st
            },
            None => st,
        },
        None => st,
    };
    match field_child(view, "body"@) {
        Some(b) => {
            let s2 = match include_hint {
                Some(h) => statement_refs_spec(
                    statement_refs_spec(s1, b, "include_statement"@, ReferenceKind::ViewInclude, h, view.kind@, parent),
                    b,
                    "exclude_statement"@,
                    ReferenceKind::ViewExclude,
                    h,
                    view.kind@,
                    parent,
                ),
                None => s1,
            };
            match animation_hint {
                Some(h) => statement_refs_spec(s2, b, "animation_block"@, ReferenceKind::ViewAnimation, h, view.kind@, parent),
                None => s2,
            }
        },
        None => s1,
    }
}

/// `st` with the references of dynamic view `view`; `body_in_deployment` tells whether the
/// view or one of its ancestors is a deployment scope.
pub open spec fn dynamic_view_spec(st: ExtractState, view: SyntaxNode, parent: Option<SymbolId>, body_in_deployment: bool) -> ExtractState {
    let s = view_refs_spec(st, view, Some(ReferenceTargetHint::Element), None, None, parent);
    match field_child(view, "body"@) {
        Some(b) => dynamic_refs_spec(s, b, parent, body_in_deployment),
        None => s,
    }
}

/// `st` after visiting node `n` below symbol `parent`; `in_deployment` tells whether a strict
/// ancestor of `n` is a deployment scope.
pub open spec fn visit_spec(
    kinds: Seq<(Seq<char>, SymbolKind)>,
    st: ExtractState,
    n: SyntaxNode,
    parent: Option<SymbolId>,
    in_deployment: bool,
) -> ExtractState
    decreases n,
{
    let below = in_deployment || is_deployment_scope_kind(n.kind@);
    let k = n.kind@;
    if element_kind_of(k) is Some {
        visit_list(kinds, push_declaration_spec(st, n, element_kind_of(k)->0, parent), n.children@, Some(next_id(st)), below)
    } else if archetype_instance_kind(kinds, n) is Some {
        visit_list(
            kinds,
            push_declaration_spec(st, n, archetype_instance_kind(kinds, n)->0, parent),
            n.children@,
            Some(next_id(st)),
            below,
        )
    } else if named_deployment_kind_of(k) is Some {
        let c = or_parent(bound_id(st, n), parent);
        visit_list(kinds, push_named_deployment_spec(st, n, named_deployment_kind_of(k)->0, parent), n.children@, c, below)
    } else if instance_kind_of(k) is Some {
        let c = or_parent(bound_id(st, n), parent);
        let s1 = push_instance_spec(st, n, instance_kind_of(k)->0, parent);
        visit_list(kinds, instance_target_spec(s1, n, c), n.children@, c, below)
    } else if k == "relationship"@ {
        let c = or_parent(bound_id(st, n), parent);
        let s1 = push_relationship_spec(st, n, parent);
        visit_list(kinds, relationship_refs_spec(s1, n, c, in_deployment), n.children@, c, below)
    } else if k == "nested_relationship"@ {
        visit_list(kinds, relationship_refs_spec(st, n, parent, in_deployment), n.children@, parent, below)
    } else if k == "system_landscape_view"@ {
        view_refs_spec(st, n, None, Some(ReferenceTargetHint::ElementOrRelationship), Some(ReferenceTargetHint::Element), parent)
    } else if k == "system_context_view"@ || k == "container_view"@ || k == "component_view"@ {
        view_refs_spec(
            st,
            n,
            Some(ReferenceTargetHint::Element),
            Some(ReferenceTargetHint::ElementOrRelationship),
            Some(ReferenceTargetHint::Element),
            parent,
        )
    } else if k == "deployment_view"@ {
        view_refs_spec(
            st,
            n,
            Some(ReferenceTargetHint::Element),
            Some(ReferenceTargetHint::Deployment),
            Some(ReferenceTargetHint::Deployment),
            parent,
        )
    } else if k == "dynamic_view"@ {
        dynamic_view_spec(st, n, parent, below)
    } else {
        visit_list(kinds, st, n.children@, parent, below)
    }
}

/// `st` after visiting the named nodes of `cs` in order.
pub open spec fn visit_list(
    kinds: Seq<(Seq<char>, SymbolKind)>,
    st: ExtractState,
    cs: Seq<SyntaxNode>,
    parent: Option<SymbolId>,
    in_deployment: bool,
) -> ExtractState
    decreases cs,
{
    if cs.len() == 0 {
        st
    } else {
        let s = visit_list(kinds, st, cs.drop_last(), parent, in_deployment);
        if cs.last().is_named {
            visit_spec(kinds, s, cs.last(), parent, in_deployment)
        } else {
            s
        }
    }
}

/// Each symbol's id is its position, and a symbol's parent comes before it.
pub open spec fn symbols_ok(st: ExtractState) -> bool {
    forall|i: int|
        0 <= i < st.symbols.len() ==> (#[trigger] st.symbols[i]).id == SymbolId(i as usize) && (st.symbols[i].parent matches Some(
            p,
        ) ==> p.0 < i)
}

/// Each reference's containing symbol is one of the symbols.
pub open spec fn references_ok(st: ExtractState) -> bool {
    forall|i: int|
        0 <= i < st.references.len() ==> ((#[trigger] st.references[i]).containing_symbol matches Some(c) ==> c.0
            < st.symbols.len())
}

/// `parent`, when present, is one of the symbols of `st`.
pub open spec fn parent_ok(st: ExtractState, parent: Option<SymbolId>) -> bool {
    parent matches Some(p) ==> p.0 < st.symbols.len()
}

/// `after` keeps the symbols of `before`, well formed, and its references are well formed.
pub open spec fn grows_ok(before: ExtractState, after: ExtractState) -> bool {
    &&& before.symbols.len() <= after.symbols.len()
    &&& symbols_ok(after)
    &&& references_ok(after)
}

/// `after` has the symbols of `before` and well-formed references.
pub open spec fn refs_only_ok(before: ExtractState, after: ExtractState) -> bool {
    &&& after.symbols == before.symbols
    &&& references_ok(after)
}

proof fn lemma_push_reference_ok(
    st: ExtractState,
    kind: ReferenceKind,
    at: SyntaxNode,
    hint: ReferenceTargetHint,
    container: Seq<char>,
    containing: Option<SymbolId>,
)
    requires
        references_ok(st),
        parent_ok(st, containing),
    ensures
        refs_only_ok(st, push_reference_spec(st, kind, at, hint, container, containing)),
{
    let r = push_reference_spec(st, kind, at, hint, container, containing);
    assert forall|i: int| 0 <= i < r.references.len() implies ((#[trigger] r.references[i]).containing_symbol matches Some(
        c,
    ) ==> c.0 < r.symbols.len()) by {
        if i < st.references.len() {
            assert(r.references[i] == st.references[i]);
        }
    }
}

proof fn lemma_push_symbol_ok(
    st: ExtractState,
    n: SyntaxNode,
    kind: SymbolKind,
    display_name: Seq<char>,
    binding: Option<SyntaxNode>,
    parent: Option<SymbolId>,
)
    requires
        symbols_ok(st),
        references_ok(st),
        parent_ok(st, parent),
        st.symbols.len() < usize::MAX,
    ensures
        grows_ok(st, push_symbol_spec(st, n, kind, display_name, binding, parent)),
        push_symbol_spec(st, n, kind, display_name, binding, parent).symbols.len() == st.symbols.len() + 1,
{
    let r = push_symbol_spec(st, n, kind, display_name, binding, parent);
    assert forall|i: int| 0 <= i < r.symbols.len() implies (#[trigger] r.symbols[i]).id == SymbolId(i as usize) && (
    r.symbols[i].parent matches Some(p) ==> p.0 < i) by {
        if i < st.symbols.len() {
            assert(r.symbols[i] == st.symbols[i]);
        }
    }
    assert forall|i: int| 0 <= i < r.references.len() implies ((#[trigger] r.references[i]).containing_symbol matches Some(
        c,
    ) ==> c.0 < r.symbols.len()) by {
        assert(r.references[i] == st.references[i]);
    }
}

proof fn lemma_view_values_ok(
    st: ExtractState,
    cs: Seq<SyntaxNode>,
    kind: ReferenceKind,
    hint: ReferenceTargetHint,
    view_kind: Seq<char>,
    parent: Option<SymbolId>,
)
    requires
        references_ok(st),
        parent_ok(st, parent),
    ensures
        refs_only_ok(st, view_values_spec(st, cs, kind, hint, view_kind, parent)),
    decreases cs.len(),
{
    if cs.len() > 0 {
        lemma_view_values_ok(st, cs.drop_last(), kind, hint, view_kind, parent);
        let s = view_values_spec(st, cs.drop_last(), kind, hint, view_kind, parent);
        lemma_push_reference_ok(s, kind, cs.last(), hint, view_kind, parent);
    }
}

proof fn lemma_statement_refs_ok(
    st: ExtractState,
    n: SyntaxNode,
    stmt: Seq<char>,
    kind: ReferenceKind,
    hint: ReferenceTargetHint,
    view_kind: Seq<char>,
    parent: Option<SymbolId>,
)
    requires
        references_ok(st),
        parent_ok(st, parent),
    ensures
        refs_only_ok(st, statement_refs_spec(st, n, stmt, kind, hint, view_kind, parent)),
    decreases n,
{
    if n.kind@ == stmt {
        lemma_view_values_ok(st, n.children@, kind, hint, view_kind, parent);
    } else {
        lemma_statement_refs_list_ok(st, n.children@, stmt, kind, hint, view_kind, parent);
    }
}

proof fn lemma_statement_refs_list_ok(
    st: ExtractState,
    cs: Seq<SyntaxNode>,
    stmt: Seq<char>,
    kind: ReferenceKind,
    hint: ReferenceTargetHint,
    view_kind: Seq<char>,
    parent: Option<SymbolId>,
)
    requires
        references_ok(st),
        parent_ok(st, parent),
    ensures
        refs_only_ok(st, statement_refs_list(st, cs, stmt, kind, hint, view_kind, parent)),
    decreases cs,
{
    if cs.len() > 0 {
        lemma_statement_refs_list_ok(st, cs.drop_last(), stmt, kind, hint, view_kind, parent);
        let s = statement_refs_list(st, cs.drop_last(), stmt, kind, hint, view_kind, parent);
        if cs.last().is_named {
            lemma_statement_refs_ok(s, cs.last(), stmt, kind, hint, view_kind, parent);
        }
    }
}

proof fn lemma_endpoint_ok(
    st: ExtractState,
    rel: SyntaxNode,
    field: Seq<char>,
    kind: ReferenceKind,
    hint: ReferenceTargetHint,
    containing: Option<SymbolId>,
)
    requires
        references_ok(st),
        parent_ok(st, containing),
    ensures
        refs_only_ok(st, push_endpoint_spec(st, rel, field, kind, hint, containing)),
{
    match field_child(rel, field) {
        Some(e) => {
            lemma_push_reference_ok(st, kind, e, hint, rel.kind@, containing);
        },
        None => {},
    }
}

proof fn lemma_relationship_refs_ok(st: ExtractState, rel: SyntaxNode, containing: Option<SymbolId>, in_deployment: bool)
    requires
        references_ok(st),
        parent_ok(st, containing),
    ensures
        refs_only_ok(st, relationship_refs_spec(st, rel, containing, in_deployment)),
{
    let s = endpoint_surface(in_deployment);
    lemma_endpoint_ok(st, rel, "source"@, s.0, s.2, containing);
    let s1 = push_endpoint_spec(st, rel, "source"@, s.0, s.2, containing);
    lemma_endpoint_ok(s1, rel, "destination"@, s.1, s.2, containing);
}

proof fn lemma_dynamic_refs_ok(st: ExtractState, n: SyntaxNode, parent: Option<SymbolId>, in_deployment: bool)
    requires
        references_ok(st),
        parent_ok(st, parent),
    ensures
        refs_only_ok(st, dynamic_refs_spec(st, n, parent, in_deployment)),
    decreases n,
{
    let s = if n.kind@ == "dynamic_relationship"@ {
        lemma_relationship_refs_ok(st, n, parent, in_deployment);
        relationship_refs_spec(st, n, parent, in_deployment)
    } else {
        st
    };
    lemma_dynamic_refs_list_ok(s, n.children@, parent, in_deployment || is_deployment_scope_kind(n.kind@));
}

proof fn lemma_dynamic_refs_list_ok(st: ExtractState, cs: Seq<SyntaxNode>, parent: Option<SymbolId>, in_deployment: bool)
    requires
        references_ok(st),
        parent_ok(st, parent),
    ensures
        refs_only_ok(st, dynamic_refs_list(st, cs, parent, in_deployment)),
    decreases cs,
{
    if cs.len() > 0 {
        lemma_dynamic_refs_list_ok(st, cs.drop_last(), parent, in_deployment);
        let s = dynamic_refs_list(st, cs.drop_last(), parent, in_deployment);
        if cs.last().is_named {
            lemma_dynamic_refs_ok(s, cs.last(), parent, in_deployment);
        }
    }
}

proof fn lemma_view_refs_ok(
    st: ExtractState,
    view: SyntaxNode,
    scope_hint: Option<ReferenceTargetHint>,
    include_hint: Option<ReferenceTargetHint>,
    animation_hint: Option<ReferenceTargetHint>,
    parent: Option<SymbolId>,
)
    requires
        references_ok(st),
        parent_ok(st, parent),
    ensures
        refs_only_ok(st, view_refs_spec(st, view, scope_hint, include_hint, animation_hint, parent)),
{
    let s1 = match scope_hint {
        Some(h) => match field_child(view, "scope"@) {
            Some(c) => if c.kind@ == "identifier"@ {
                lemma_push_reference_ok(st, ReferenceKind::ViewScope, c, h, view.kind@, parent);
                push_reference_spec(st, ReferenceKind::ViewScope, c, h, view.kind@, parent)
            } else {
                st
            },
            None => st,
        },
        None => st,
    };
    match field_child(view, "body"@) {
        Some(b) => {
            let s2 = match include_hint {
                Some(h) => {
                    lemma_statement_refs_ok(s1, b, "include_statement"@, ReferenceKind::ViewInclude, h, view.kind@, parent);
                    let t = statement_refs_spec(s1, b, "include_statement"@, ReferenceKind::ViewInclude, h, view.kind@, parent);
                    lemma_statement_refs_ok(t, b, "exclude_statement"@, ReferenceKind::ViewExclude, h, view.kind@, parent);
                    statement_refs_spec(t, b, "exclude_statement"@, ReferenceKind::ViewExclude, h, view.kind@, parent)
                },
                None => s1,
            };
            match animation_hint {
                Some(h) => {
                    lemma_statement_refs_ok(s2, b, "animation_block"@, ReferenceKind::ViewAnimation, h, view.kind@, parent);
                },
                None => {},
            }
        },
        None => {},
    }
}

proof fn lemma_visit_ok(
    kinds: Seq<(Seq<char>, SymbolKind)>,
    st: ExtractState,
    n: SyntaxNode,
    parent: Option<SymbolId>,
    in_deployment: bool,
)
    requires
        symbols_ok(st),
        references_ok(st),
        parent_ok(st, parent),
        visit_spec(kinds, st, n, parent, in_deployment).symbols.len() <= usize::MAX,
    ensures
        grows_ok(st, visit_spec(kinds, st, n, parent, in_deployment)),
    decreases n,
{
    let below = in_deployment || is_deployment_scope_kind(n.kind@);
    let k = n.kind@;
    let out = visit_spec(kinds, st, n, parent, in_deployment);
    if element_kind_of(k) is Some || archetype_instance_kind(kinds, n) is Some {
        let kind = if element_kind_of(k) is Some {
            element_kind_of(k)->0
        } else {
            archetype_instance_kind(kinds, n)->0
        };
        let s1 = push_declaration_spec(st, n, kind, parent);
        lemma_visit_list_grows(kinds, s1, n.children@, Some(next_id(st)), below);
        lemma_push_symbol_ok(st, n, kind, declared_name(n), identifier_child(n), parent);
        lemma_visit_list_ok(kinds, s1, n.children@, Some(next_id(st)), below);
    } else if named_deployment_kind_of(k) is Some || instance_kind_of(k) is Some || k == "relationship"@ {
        let c = or_parent(bound_id(st, n), parent);
        let s1 = if named_deployment_kind_of(k) is Some {
            push_named_deployment_spec(st, n, named_deployment_kind_of(k)->0, parent)
        } else if instance_kind_of(k) is Some {
            push_instance_spec(st, n, instance_kind_of(k)->0, parent)
        } else {
            push_relationship_spec(st, n, parent)
        };
        let s2 = if named_deployment_kind_of(k) is Some {
            s1
        } else if instance_kind_of(k) is Some {
            instance_target_spec(s1, n, c)
        } else {
            relationship_refs_spec(s1, n, c, in_deployment)
        };
        assert(s2.symbols == s1.symbols) by {
            if named_deployment_kind_of(k) is None && instance_kind_of(k) is None {
                lemma_relationship_refs_ok_len(s1, n, c, in_deployment);
            }
        }
        lemma_visit_list_grows(kinds, s2, n.children@, c, below);
        match identifier_child(n) {
            Some(ic) => {
                let name = if named_deployment_kind_of(k) is Some {
                    declared_name(n)
                } else if instance_kind_of(k) is Some {
                    ic.text@
                } else {
                    relationship_name(n, ic.text@)
                };
                let kind = if named_deployment_kind_of(k) is Some {
                    named_deployment_kind_of(k)->0
                } else if instance_kind_of(k) is Some {
                    instance_kind_of(k)->0
                } else {
                    SymbolKind::Relationship
                };
                lemma_push_symbol_ok(st, n, kind, name, Some(ic), parent);
            },
            None => {},
        }
        assert(parent_ok(s1, c));
        if named_deployment_kind_of(k) is None {
            if instance_kind_of(k) is Some {
                match field_child(n, "target"@) {
                    Some(t) => {
                        if t.kind@ == "identifier"@ {
                            lemma_push_reference_ok(s1, ReferenceKind::InstanceTarget, t, ReferenceTargetHint::Element, n.kind@, c);
                        }
                    },
                    None => {},
                }
            } else {
                lemma_relationship_refs_ok(s1, n, c, in_deployment);
            }
        }
        lemma_visit_list_ok(kinds, s2, n.children@, c, below);
    } else if k == "nested_relationship"@ {
        lemma_relationship_refs_ok(st, n, parent, in_deployment);
        let s1 = relationship_refs_spec(st, n, parent, in_deployment);
        lemma_visit_list_ok(kinds, s1, n.children@, parent, below);
    } else if k == "system_landscape_view"@ {
        lemma_view_refs_ok(st, n, None, Some(ReferenceTargetHint::ElementOrRelationship), Some(ReferenceTargetHint::Element), parent);
    } else if k == "system_context_view"@ || k == "container_view"@ || k == "component_view"@ {
        lemma_view_refs_ok(
            st,
            n,
            Some(ReferenceTargetHint::Element),
            Some(ReferenceTargetHint::ElementOrRelationship),
            Some(ReferenceTargetHint::Element),
            parent,
        );
    } else if k == "deployment_view"@ {
        lemma_view_refs_ok(
            st,
            n,
            Some(ReferenceTargetHint::Element),
            Some(ReferenceTargetHint::Deployment),
            Some(ReferenceTargetHint::Deployment),
            parent,
        );
    } else if k == "dynamic_view"@ {
        lemma_view_refs_ok(st, n, Some(ReferenceTargetHint::Element), None, None, parent);
        let s = view_refs_spec(st, n, Some(ReferenceTargetHint::Element), None, None, parent);
        match field_child(n, "body"@) {
            Some(b) => {
                lemma_dynamic_refs_ok(s, b, parent, below);
            },
            None => {},
        }
    } else {
        lemma_visit_list_ok(kinds, st, n.children@, parent, below);
    }
}

/// Visiting never removes symbols.
proof fn lemma_visit_grows(
    kinds: Seq<(Seq<char>, SymbolKind)>,
    st: ExtractState,
    n: SyntaxNode,
    parent: Option<SymbolId>,
    in_deployment: bool,
)
    ensures
        st.symbols.len() <= visit_spec(kinds, st, n, parent, in_deployment).symbols.len(),
    decreases n,
{
    let below = in_deployment || is_deployment_scope_kind(n.kind@);
    let k = n.kind@;
    if element_kind_of(k) is Some {
        lemma_visit_list_grows(kinds, push_declaration_spec(st, n, element_kind_of(k)->0, parent), n.children@, Some(next_id(st)), below);
    } else if archetype_instance_kind(kinds, n) is Some {
        lemma_visit_list_grows(
            kinds,
            push_declaration_spec(st, n, archetype_instance_kind(kinds, n)->0, parent),
            n.children@,
            Some(next_id(st)),
            below,
        );
    } else if named_deployment_kind_of(k) is Some {
        let c = or_parent(bound_id(st, n), parent);
        lemma_visit_list_grows(kinds, push_named_deployment_spec(st, n, named_deployment_kind_of(k)->0, parent), n.children@, c, below);
    } else if instance_kind_of(k) is Some {
        let c = or_parent(bound_id(st, n), parent);
        let s1 = push_instance_spec(st, n, instance_kind_of(k)->0, parent);
        lemma_visit_list_grows(kinds, instance_target_spec(s1, n, c), n.children@, c, below);
    } else if k == "relationship"@ {
        let c = or_parent(bound_id(st, n), parent);
        let s1 = push_relationship_spec(st, n, parent);
        lemma_relationship_refs_ok_len(s1, n, c, in_deployment);
        lemma_visit_list_grows(kinds, relationship_refs_spec(s1, n, c, in_deployment), n.children@, c, below);
    } else if k == "nested_relationship"@ {
        lemma_relationship_refs_ok_len(st, n, parent, in_deployment);
        lemma_visit_list_grows(kinds, relationship_refs_spec(st, n, parent, in_deployment), n.children@, parent, below);
    } else if k == "system_landscape_view"@ || k == "system_context_view"@ || k == "container_view"@ || k
        == "component_view"@ || k == "deployment_view"@ || k == "dynamic_view"@ {
        lemma_views_keep_symbols(st, n, parent, below);
    } else {
        lemma_visit_list_grows(kinds, st, n.children@, parent, below);
    }
}

proof fn lemma_relationship_refs_ok_len(st: ExtractState, rel: SyntaxNode, containing: Option<SymbolId>, in_deployment: bool)
    ensures
        relationship_refs_spec(st, rel, containing, in_deployment).symbols == st.symbols,
{
}

proof fn lemma_statement_refs_keep(
    st: ExtractState,
    n: SyntaxNode,
    stmt: Seq<char>,
    kind: ReferenceKind,
    hint: ReferenceTargetHint,
    view_kind: Seq<char>,
    parent: Option<SymbolId>,
)
    ensures
        statement_refs_spec(st, n, stmt, kind, hint, view_kind, parent).symbols == st.symbols,
    decreases n,
{
    if n.kind@ == stmt {
        lemma_view_values_keep(st, n.children@, kind, hint, view_kind, parent);
    } else {
        lemma_statement_refs_list_keep(st, n.children@, stmt, kind, hint, view_kind, parent);
    }
}

proof fn lemma_statement_refs_list_keep(
    st: ExtractState,
    cs: Seq<SyntaxNode>,
    stmt: Seq<char>,
    kind: ReferenceKind,
    hint: ReferenceTargetHint,
    view_kind: Seq<char>,
    parent: Option<SymbolId>,
)
    ensures
        statement_refs_list(st, cs, stmt, kind, hint, view_kind, parent).symbols == st.symbols,
    decreases cs,
{
    if cs.len() > 0 {
        lemma_statement_refs_list_keep(st, cs.drop_last(), stmt, kind, hint, view_kind, parent);
        let s = statement_refs_list(st, cs.drop_last(), stmt, kind, hint, view_kind, parent);
        if cs.last().is_named {
            lemma_statement_refs_keep(s, cs.last(), stmt, kind, hint, view_kind, parent);
        }
    }
}

proof fn lemma_view_values_keep(
    st: ExtractState,
    cs: Seq<SyntaxNode>,
    kind: ReferenceKind,
    hint: ReferenceTargetHint,
    view_kind: Seq<char>,
    parent: Option<SymbolId>,
)
    ensures
        view_values_spec(st, cs, kind, hint, view_kind, parent).symbols == st.symbols,
    decreases cs.len(),
{
    if cs.len() > 0 {
        lemma_view_values_keep(st, cs.drop_last(), kind, hint, view_kind, parent);
    }
}

proof fn lemma_dynamic_refs_keep(st: ExtractState, n: SyntaxNode, parent: Option<SymbolId>, in_deployment: bool)
    ensures
        dynamic_refs_spec(st, n, parent, in_deployment).symbols == st.symbols,
    decreases n,
{
    let s = if n.kind@ == "dynamic_relationship"@ {
        relationship_refs_spec(st, n, parent, in_deployment)
    } else {
        st
    };
    lemma_dynamic_refs_list_keep(s, n.children@, parent, in_deployment || is_deployment_scope_kind(n.kind@));
}

proof fn lemma_dynamic_refs_list_keep(st: ExtractState, cs: Seq<SyntaxNode>, parent: Option<SymbolId>, in_deployment: bool)
    ensures
        dynamic_refs_list(st, cs, parent, in_deployment).symbols == st.symbols,
    decreases cs,
{
    if cs.len() > 0 {
        lemma_dynamic_refs_list_keep(st, cs.drop_last(), parent, in_deployment);
        let s = dynamic_refs_list(st, cs.drop_last(), parent, in_deployment);
        if cs.last().is_named {
            lemma_dynamic_refs_keep(s, cs.last(), parent, in_deployment);
        }
    }
}

proof fn lemma_view_refs_keep(
    st: ExtractState,
    view: SyntaxNode,
    scope_hint: Option<ReferenceTargetHint>,
    include_hint: Option<ReferenceTargetHint>,
    animation_hint: Option<ReferenceTargetHint>,
    parent: Option<SymbolId>,
)
    ensures
        view_refs_spec(st, view, scope_hint, include_hint, animation_hint, parent).symbols == st.symbols,
{
    let s1 = match scope_hint {
        Some(h) => match field_child(view, "scope"@) {
            Some(c) => if c.kind@ == "identifier"@ {
                push_reference_spec(st, ReferenceKind::ViewScope, c, h, view.kind@, parent)
            } else {
                st
            },
            None => st,
        },
        None => st,
    };
    match field_child(view, "body"@) {
        Some(b) => {
            let s2 = match include_hint {
                Some(h) => {
                    lemma_statement_refs_keep(s1, b, "include_statement"@, ReferenceKind::ViewInclude, h, view.kind@, parent);
                    let t = statement_refs_spec(s1, b, "include_statement"@, ReferenceKind::ViewInclude, h, view.kind@, parent);
                    lemma_statement_refs_keep(t, b, "exclude_statement"@, ReferenceKind::ViewExclude, h, view.kind@, parent);
                    statement_refs_spec(t, b, "exclude_statement"@, ReferenceKind::ViewExclude, h, view.kind@, parent)
                },
                None => s1,
            };
            match animation_hint {
                Some(h) => {
                    lemma_statement_refs_keep(s2, b, "animation_block"@, ReferenceKind::ViewAnimation, h, view.kind@, parent);
                },
                None => {},
            }
        },
        None => {},
    }
}

proof fn lemma_views_keep_symbols(st: ExtractState, n: SyntaxNode, parent: Option<SymbolId>, below: bool)
    ensures
        view_refs_spec(st, n, None, Some(ReferenceTargetHint::ElementOrRelationship), Some(ReferenceTargetHint::Element), parent).symbols
            == st.symbols,
        view_refs_spec(
            st,
            n,
            Some(ReferenceTargetHint::Element),
            Some(ReferenceTargetHint::ElementOrRelationship),
            Some(ReferenceTargetHint::Element),
            parent,
        ).symbols == st.symbols,
        view_refs_spec(
            st,
            n,
            Some(ReferenceTargetHint::Element),
            Some(ReferenceTargetHint::Deployment),
            Some(ReferenceTargetHint::Deployment),
            parent,
        ).symbols == st.symbols,
        dynamic_view_spec(st, n, parent, below).symbols == st.symbols,
{
    lemma_view_refs_keep(st, n, None, Some(ReferenceTargetHint::ElementOrRelationship), Some(ReferenceTargetHint::Element), parent);
    lemma_view_refs_keep(
        st,
        n,
        Some(ReferenceTargetHint::Element),
        Some(ReferenceTargetHint::ElementOrRelationship),
        Some(ReferenceTargetHint::Element),
        parent,
    );
    lemma_view_refs_keep(
        st,
        n,
        Some(ReferenceTargetHint::Element),
        Some(ReferenceTargetHint::Deployment),
        Some(ReferenceTargetHint::Deployment),
        parent,
    );
    lemma_view_refs_keep(st, n, Some(ReferenceTargetHint::Element), None, None, parent);
    let s = view_refs_spec(st, n, Some(ReferenceTargetHint::Element), None, None, parent);
    match field_child(n, "body"@) {
        Some(b) => {
            lemma_dynamic_refs_keep(s, b, parent, below);
        },
        None => {},
    }
}

proof fn lemma_visit_list_grows(
    kinds: Seq<(Seq<char>, SymbolKind)>,
    st: ExtractState,
    cs: Seq<SyntaxNode>,
    parent: Option<SymbolId>,
    in_deployment: bool,
)
    ensures
        st.symbols.len() <= visit_list(kinds, st, cs, parent, in_deployment).symbols.len(),
    decreases cs,
{
    if cs.len() > 0 {
        lemma_visit_list_grows(kinds, st, cs.drop_last(), parent, in_deployment);
        let s = visit_list(kinds, st, cs.drop_last(), parent, in_deployment);
        if cs.last().is_named {
            lemma_visit_grows(kinds, s, cs.last(), parent, in_deployment);
        }
    }
}

proof fn lemma_visit_list_ok(
    kinds: Seq<(Seq<char>, SymbolKind)>,
    st: ExtractState,
    cs: Seq<SyntaxNode>,
    parent: Option<SymbolId>,
    in_deployment: bool,
)
    requires
        symbols_ok(st),
        references_ok(st),
        parent_ok(st, parent),
        visit_list(kinds, st, cs, parent, in_deployment).symbols.len() <= usize::MAX,
    ensures
        grows_ok(st, visit_list(kinds, st, cs, parent, in_deployment)),
    decreases cs,
{
    if cs.len() > 0 {
        let s = visit_list(kinds, st, cs.drop_last(), parent, in_deployment);
        if cs.last().is_named {
            lemma_visit_grows(kinds, s, cs.last(), parent, in_deployment);
        }
        lemma_visit_list_ok(kinds, st, cs.drop_last(), parent, in_deployment);
        if cs.last().is_named {
            lemma_visit_ok(kinds, s, cs.last(), parent, in_deployment);
        }
    }
}

/// Extraction numbers symbols by position, declares each parent before its children, and
/// gives each reference a containing symbol, when it has one, among the extracted symbols.
pub proof fn lemma_extraction_well_formed(kinds: Seq<(Seq<char>, SymbolKind)>, root: SyntaxNode)
    requires
        visit_spec(kinds, ExtractState { symbols: Seq::empty(), references: Seq::empty() }, root, None, false).symbols.len()
            <= usize::MAX,
    ensures
        symbols_ok(visit_spec(kinds, ExtractState { symbols: Seq::empty(), references: Seq::empty() }, root, None, false)),
        references_ok(visit_spec(kinds, ExtractState { symbols: Seq::empty(), references: Seq::empty() }, root, None, false)),
{
    lemma_visit_ok(kinds, ExtractState { symbols: Seq::empty(), references: Seq::empty() }, root, None, false);
}

} // verus!
