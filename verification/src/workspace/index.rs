//! Per-document semantic packets and the binding tables assembled from them.

use vstd::prelude::*;

use crate::diagnostics::{Annotation, RuledDiagnostic};
use crate::span::TextSpan;
use crate::semantic::{
    ConfigurationScopeFact, ElementDirectiveFact, PropertyFact, RelationshipFact,
    ResourceDirectiveFact, ViewFact, WorkspaceSectionFact,
};
use crate::snapshot::{DocumentId, DocumentLocation};
use crate::symbols::{is_deployment_kind, is_element_kind, IdentifierMode, IdentifierModeFact, Reference, Symbol, SymbolKind};
use crate::workspace::bindings::{
    canonical_binding_key, canonical_key, effective_element_identifier_mode_from_facts, governing_mode,
    mode_class, opt_view, parents_precede, CanonicalBindingKind, ElementIdentifierMode,
};
use crate::workspace::model::SymbolHandle;
use crate::workspace::tables::{
    add_binding, dup_has, groups_nonempty, has_key, holds, keys_sorted, only_handle, single_handle,
    split_binding_table, split_correct_at, strictly_sorted, table_has, unique_get, lemma_unique_get_at,
};

verus! {

/// The semantic subset of one document's facts that drives binding and reference assembly.
#[derive(Debug)]
pub struct WorkspaceSemanticDocumentFacts {
    /// The document these facts were extracted from.
    pub document_id: DocumentId,
    /// The document's filesystem location, when it has one.
    pub document_location: Option<DocumentLocation>,
    /// Whether the document has syntax errors (semantic diagnostics are then suppressed).
    pub has_syntax_errors: bool,
    /// Every `!identifiers` directive of the document.
    pub identifier_modes: Vec<IdentifierModeFact>,
    /// Every declaration symbol of the document.
    pub symbols: Vec<Symbol>,
    /// Every reference site of the document.
    pub references: Vec<Reference>,
    /// Top-level workspace sections.
    pub workspace_sections: Vec<WorkspaceSectionFact>,
    /// `configuration { scope ... }` statements.
    pub configuration_scopes: Vec<ConfigurationScopeFact>,
    /// `properties { ... }` entries.
    pub property_facts: Vec<PropertyFact>,
    /// `!docs` and `!adrs` directives.
    pub resource_directives: Vec<ResourceDirectiveFact>,
    /// `!element` directives.
    pub element_directives: Vec<ElementDirectiveFact>,
    /// Declared relationships.
    pub relationship_facts: Vec<RelationshipFact>,
    /// View definitions.
    pub view_facts: Vec<ViewFact>,
}

/// `a` holds what `b` holds, field by field.
pub open spec fn symbol_copy(a: Symbol, b: Symbol) -> bool {
    &&& a.id == b.id
    &&& a.kind == b.kind
    &&& a.display_name == b.display_name
    &&& a.binding_name == b.binding_name
    &&& a.binding_span == b.binding_span
    &&& a.description == b.description
    &&& a.technology == b.technology
    &&& a.tags@ == b.tags@
    &&& a.url == b.url
    &&& a.span == b.span
    &&& a.parent == b.parent
    &&& a.syntax_node_kind == b.syntax_node_kind
}

/// `a` holds what `b` holds, field by field.
pub open spec fn view_copy(a: ViewFact, b: ViewFact) -> bool {
    &&& a.kind == b.kind
    &&& a.span == b.span
    &&& a.body_span == b.body_span
    &&& a.key == b.key
    &&& a.scope == b.scope
    &&& a.environment == b.environment
    &&& a.base_key == b.base_key
    &&& a.filter_mode == b.filter_mode
    &&& a.filter_tags == b.filter_tags
    &&& a.auto_layout == b.auto_layout
    &&& a.include_values@ == b.include_values@
    &&& a.exclude_values@ == b.exclude_values@
    &&& a.animation_values@ == b.animation_values@
    &&& a.dynamic_steps@ == b.dynamic_steps@
    &&& a.image_sources@ == b.image_sources@
}

fn clone_symbols(v: &Vec<Symbol>) -> (r: Vec<Symbol>)
    ensures
        r@.len() == v@.len(),
        forall|i: int| 0 <= i < r@.len() ==> symbol_copy(#[trigger] r@[i], v@[i]),
{
    let mut r: Vec<Symbol> = Vec::new();
    let mut i: usize = 0;
    while i < v.len()
        invariant
            i <= v@.len(),
            r@.len() == i,
            forall|k: int| 0 <= k < i ==> symbol_copy(#[trigger] r@[k], v@[k]),
        decreases v@.len() - i,
    {
        r.push(v[i].clone());
        i = i + 1;
    }
    r
}

fn clone_view(v: &ViewFact) -> (r: ViewFact)
    ensures
        view_copy(r, *v),
{
    ViewFact {
        kind: v.kind,
        span: v.span,
        body_span: v.body_span,
        key: crate::semantic::clone_opt_value(&v.key),
        scope: crate::semantic::clone_opt_value(&v.scope),
        environment: crate::semantic::clone_opt_value(&v.environment),
        base_key: crate::semantic::clone_opt_value(&v.base_key),
        filter_mode: crate::symbols::clone_opt_string(&v.filter_mode),
        filter_tags: crate::semantic::clone_opt_value(&v.filter_tags),
        auto_layout: match &v.auto_layout {
            Some(a) => Some(a.clone()),
            None => None,
        },
        include_values: v.include_values.clone(),
        exclude_values: v.exclude_values.clone(),
        animation_values: v.animation_values.clone(),
        dynamic_steps: v.dynamic_steps.clone(),
        image_sources: v.image_sources.clone(),
    }
}

fn clone_views(v: &Vec<ViewFact>) -> (r: Vec<ViewFact>)
    ensures
        r@.len() == v@.len(),
        forall|i: int| 0 <= i < r@.len() ==> view_copy(#[trigger] r@[i], v@[i]),
{
    let mut r: Vec<ViewFact> = Vec::new();
    let mut i: usize = 0;
    while i < v.len()
        invariant
            i <= v@.len(),
            r@.len() == i,
            forall|k: int| 0 <= k < i ==> view_copy(#[trigger] r@[k], v@[k]),
        decreases v@.len() - i,
    {
        r.push(clone_view(&v[i]));
        i = i + 1;
    }
    r
}

impl WorkspaceSemanticDocumentFacts {
    /// The workspace-relevant facts of one analyzed document.
    pub fn from_snapshot(snapshot: &crate::snapshot::DocumentSnapshot) -> (r: Self)
        ensures
            r.document_id == snapshot.id,
            r.document_location == snapshot.location,
            r.has_syntax_errors == (snapshot.syntax_facts.syntax_diagnostics@.len() > 0),
            r.identifier_modes@ == snapshot.syntax_facts.identifier_modes@,
            r.symbols@.len() == snapshot.syntax_facts.symbols@.len(),
            forall|i: int|
                0 <= i < r.symbols@.len() ==> symbol_copy(#[trigger] r.symbols@[i], snapshot.syntax_facts.symbols@[i]),
            r.references@ == snapshot.syntax_facts.references@,
            r.workspace_sections@ == snapshot.syntax_facts.workspace_sections@,
            r.configuration_scopes@ == snapshot.syntax_facts.configuration_scopes@,
            r.property_facts@ == snapshot.syntax_facts.property_facts@,
            r.resource_directives@ == snapshot.syntax_facts.resource_directives@,
            r.element_directives@ == snapshot.syntax_facts.element_directives@,
            r.relationship_facts@ == snapshot.syntax_facts.relationship_facts@,
            r.view_facts@.len() == snapshot.syntax_facts.view_facts@.len(),
            forall|i: int|
                0 <= i < r.view_facts@.len() ==> view_copy(#[trigger] r.view_facts@[i], snapshot.syntax_facts.view_facts@[i]),
    {
        let f = &snapshot.syntax_facts;
        WorkspaceSemanticDocumentFacts {
            document_id: snapshot.id.clone(),
            document_location: match &snapshot.location {
                Some(l) => Some(l.clone()),
                None => None,
            },
            has_syntax_errors: snapshot.has_syntax_errors(),
            identifier_modes: f.identifier_modes.clone(),
            symbols: clone_symbols(&f.symbols),
            references: f.references.clone(),
            workspace_sections: f.workspace_sections.clone(),
            configuration_scopes: f.configuration_scopes.clone(),
            property_facts: f.property_facts.clone(),
            resource_directives: f.resource_directives.clone(),
            element_directives: f.element_directives.clone(),
            relationship_facts: f.relationship_facts.clone(),
            view_facts: clone_views(&f.view_facts),
        }
    }
}

/// The facts of one document are as extraction produces them: each symbol's identifier is its
/// index, parents precede their children, and every reference's containing symbol exists.
pub open spec fn facts_well_formed(d: &WorkspaceSemanticDocumentFacts) -> bool {
    &&& parents_precede(d.symbols@)
    &&& forall|i: int| 0 <= i < d.symbols@.len() ==> (#[trigger] d.symbols@[i]).id.0 == i
    &&& forall|r: int|
        0 <= r < d.references@.len() ==> ((#[trigger] d.references@[r]).containing_symbol matches Some(
            c,
        ) ==> c.0 < d.symbols@.len())
    &&& forall|r: int|
        0 <= r < d.references@.len() ==> (#[trigger] d.references@[r]).span.start_byte
            <= d.references@[r].span.end_byte
    &&& forall|e: int|
        0 <= e < d.element_directives@.len() ==> (#[trigger] d.element_directives@[e]).span.start_byte
            <= d.element_directives@[e].span.end_byte
    &&& forall|e: int|
        0 <= e < d.relationship_facts@.len() ==> (#[trigger] d.relationship_facts@[e]).span.start_byte
            <= d.relationship_facts@[e].span.end_byte
}

/// Decides `facts_well_formed`.
pub fn check_facts_well_formed(d: &WorkspaceSemanticDocumentFacts) -> (r: bool)
    ensures
        r == facts_well_formed(d),
{
    let mut i: usize = 0;
    while i < d.symbols.len()
        invariant
            i <= d.symbols@.len(),
            forall|j: int| 0 <= j < i ==> (#[trigger] d.symbols@[j]).id.0 == j && (d.symbols@[j].parent matches Some(p) ==> p.0 < j),
        decreases d.symbols@.len() - i,
    {
        let s = &d.symbols[i];
        if s.id.0 != i {
            return false;
        }
        match s.parent {
            Some(p) => if p.0 >= i {
                return false;
            },
            None => {},
        }
        i = i + 1;
    }
    let mut k: usize = 0;
    while k < d.references.len()
        invariant
            k <= d.references@.len(),
            forall|j: int|
                0 <= j < k ==> ((#[trigger] d.references@[j]).containing_symbol matches Some(c) ==> c.0 < d.symbols@.len())
                    && d.references@[j].span.start_byte <= d.references@[j].span.end_byte,
        decreases d.references@.len() - k,
    {
        let r = &d.references[k];
        match r.containing_symbol {
            Some(c) => if c.0 >= d.symbols.len() {
                return false;
            },
            None => {},
        }
        if r.span.start_byte > r.span.end_byte {
            return false;
        }
        k = k + 1;
    }
    let mut e: usize = 0;
    while e < d.element_directives.len()
        invariant
            e <= d.element_directives@.len(),
            forall|j: int|
                0 <= j < e ==> (#[trigger] d.element_directives@[j]).span.start_byte <= d.element_directives@[j].span.end_byte,
        decreases d.element_directives@.len() - e,
    {
        if d.element_directives[e].span.start_byte > d.element_directives[e].span.end_byte {
            return false;
        }
        e = e + 1;
    }
    let mut f: usize = 0;
    while f < d.relationship_facts.len()
        invariant
            f <= d.relationship_facts@.len(),
            forall|j: int|
                0 <= j < f ==> (#[trigger] d.relationship_facts@[j]).span.start_byte <= d.relationship_facts@[j].span.end_byte,
        decreases d.relationship_facts@.len() - f,
    {
        if d.relationship_facts[f].span.start_byte > d.relationship_facts[f].span.end_byte {
            return false;
        }
        f = f + 1;
    }
    true
}

/// Every document's facts are well formed.
pub open spec fn documents_well_formed(docs: Seq<&WorkspaceSemanticDocumentFacts>) -> bool {
    forall|a: int| 0 <= a < docs.len() ==> facts_well_formed(#[trigger] docs[a])
}

/// The mode inherited by document `d` from an enclosing workspace (first entry for `d`).
pub open spec fn inherited_mode_of(modes: Seq<(DocumentId, Option<IdentifierMode>)>, d: Seq<char>) -> Option<
    IdentifierMode,
>
    decreases modes.len(),
{
    if modes.len() == 0 {
        None
    } else if modes[0].0@ == d {
        modes[0].1
    } else {
        inherited_mode_of(modes.drop_first(), d)
    }
}

/// The element-identifier mode in force for one document.
pub open spec fn doc_mode(
    d: &WorkspaceSemanticDocumentFacts,
    inherited: Seq<(DocumentId, Option<IdentifierMode>)>,
) -> ElementIdentifierMode {
    mode_class(governing_mode(d.identifier_modes@, inherited_mode_of(inherited, d.document_id@)))
}

/// Looks up the mode a document inherits.
fn inherited_mode_lookup<'a>(modes: &'a [(DocumentId, Option<IdentifierMode>)], d: &DocumentId) -> (r: Option<
    &'a IdentifierMode,
>)
    ensures
        match r {
            Some(m) => inherited_mode_of(modes@, d@) == Some(*m),
            None => inherited_mode_of(modes@, d@) is None,
        },
{
    let mut i: usize = 0;
    assert(modes@.skip(0) =~= modes@);
    while i < modes.len()
        invariant
            i <= modes@.len(),
            inherited_mode_of(modes@, d@) == inherited_mode_of(modes@.skip(i as int), d@),
        decreases modes.len() - i,
    {
        assert(modes@.skip(i as int)[0] == modes@[i as int]);
        assert(modes@.skip(i as int).drop_first() =~= modes@.skip(i + 1));
        if modes[i].0.same(d) {
            return match &modes[i].1 {
                Some(m) => Some(m),
                None => None,
            };
        }
        i = i + 1;
    }
    assert(modes@.skip(i as int) =~= Seq::<(DocumentId, Option<IdentifierMode>)>::empty());
    None
}

/// The three binding families of a workspace.
#[derive(Debug, Clone, Copy, PartialEq, Eq, Structural)]
pub enum BindingFamily {
    /// Model elements.
    Element,
    /// Deployment-layer symbols.
    Deployment,
    /// Relationships with identifiers.
    Relationship,
}

/// The key under which symbol `j` of document `d` is bound in family `fam`, if any.
pub open spec fn binding_key_of(
    d: &WorkspaceSemanticDocumentFacts,
    mode: ElementIdentifierMode,
    j: int,
    fam: BindingFamily,
) -> Option<Seq<char>> {
    let s = d.symbols@[j];
    match fam {
        BindingFamily::Relationship => if s.kind == SymbolKind::Relationship {
            opt_view(s.binding_name)
        } else {
            None
        },
        BindingFamily::Element => if is_element_kind(s.kind) && s.binding_name is Some {
            canonical_key(d.symbols@, s.id.0 as int, mode, CanonicalBindingKind::Element)
        } else {
            None
        },
        BindingFamily::Deployment => if is_deployment_kind(s.kind) && s.binding_name is Some {
            canonical_key(d.symbols@, s.id.0 as int, mode, CanonicalBindingKind::Deployment)
        } else {
            None
        },
    }
}

/// Symbol `b` of document `a` binds key `k` in family `fam`, and `h` is its handle.
pub open spec fn declared_at(
    docs: Seq<&WorkspaceSemanticDocumentFacts>,
    inherited: Seq<(DocumentId, Option<IdentifierMode>)>,
    fam: BindingFamily,
    a: int,
    b: int,
    k: Seq<char>,
    h: (Seq<char>, usize),
) -> bool {
    &&& 0 <= a < docs.len()
    &&& 0 <= b < docs[a].symbols@.len()
    &&& binding_key_of(docs[a], doc_mode(docs[a], inherited), b, fam) == Some(k)
    &&& h == (docs[a].document_id@, docs[a].symbols@[b].id.0)
}

/// Some symbol before position `(a, b)` (document, then symbol order) binds `k` to `h`.
pub open spec fn declared_before(
    docs: Seq<&WorkspaceSemanticDocumentFacts>,
    inherited: Seq<(DocumentId, Option<IdentifierMode>)>,
    fam: BindingFamily,
    a: int,
    b: int,
    k: Seq<char>,
    h: (Seq<char>, usize),
) -> bool {
    exists|a2: int, b2: int|
        (a2 < a || (a2 == a && b2 < b)) && #[trigger] declared_at(docs, inherited, fam, a2, b2, k, h)
}

/// Some symbol of the documents binds `k` to `h` in family `fam`.
pub open spec fn declares(
    docs: Seq<&WorkspaceSemanticDocumentFacts>,
    inherited: Seq<(DocumentId, Option<IdentifierMode>)>,
    fam: BindingFamily,
    k: Seq<char>,
    h: (Seq<char>, usize),
) -> bool {
    declared_before(docs, inherited, fam, docs.len() as int, 0, k, h)
}

/// Exactly one handle (by view) is bound under `k` in family `fam`.
pub open spec fn single_declared(
    docs: Seq<&WorkspaceSemanticDocumentFacts>,
    inherited: Seq<(DocumentId, Option<IdentifierMode>)>,
    fam: BindingFamily,
    k: Seq<char>,
) -> bool {
    exists|h: (Seq<char>, usize)| #[trigger] only_declared(docs, inherited, fam, k, h)
}

/// `h` is the one handle bound under `k` in family `fam`.
pub open spec fn only_declared(
    docs: Seq<&WorkspaceSemanticDocumentFacts>,
    inherited: Seq<(DocumentId, Option<IdentifierMode>)>,
    fam: BindingFamily,
    k: Seq<char>,
    h: (Seq<char>, usize),
) -> bool {
    forall|h2: (Seq<char>, usize)| #[trigger] declares(docs, inherited, fam, k, h2) <==> h2 == h
}

/// Some handle is bound under `k` in family `fam`.
pub open spec fn key_declared(
    docs: Seq<&WorkspaceSemanticDocumentFacts>,
    inherited: Seq<(DocumentId, Option<IdentifierMode>)>,
    fam: BindingFamily,
    k: Seq<char>,
) -> bool {
    exists|h: (Seq<char>, usize)| #[trigger] declares(docs, inherited, fam, k, h)
}

/// The unique and duplicate tables of family `fam` describe exactly the declared bindings:
/// a key is unique when one symbol claims it and duplicated when several do.
pub open spec fn family_tables_correct(
    docs: Seq<&WorkspaceSemanticDocumentFacts>,
    inherited: Seq<(DocumentId, Option<IdentifierMode>)>,
    fam: BindingFamily,
    unique: Seq<(String, SymbolHandle)>,
    duplicate: Seq<(String, Vec<SymbolHandle>)>,
) -> bool {
    &&& keys_sorted(unique)
    &&& keys_sorted(duplicate)
    &&& forall|k: Seq<char>|
        #![trigger unique_get(unique, k)]
        #![trigger dup_has(duplicate, k)]
        {
            &&& (unique_get(unique, k) is Some <==> single_declared(docs, inherited, fam, k))
            &&& (unique_get(unique, k) matches Some(h) ==> declares(docs, inherited, fam, k, h))
            &&& (dup_has(duplicate, k) <==> (key_declared(docs, inherited, fam, k) && !single_declared(
                docs,
                inherited,
                fam,
                k,
            )))
        }
    &&& forall|i: int|
        0 <= i < duplicate.len() ==> strictly_sorted((#[trigger] duplicate[i]).1@) && (forall|
            h: (Seq<char>, usize),
        | #[trigger] holds(duplicate[i].1@, h) <==> declares(docs, inherited, fam, duplicate[i].0@, h))
}

proof fn lemma_declared_step(
    docs: Seq<&WorkspaceSemanticDocumentFacts>,
    inherited: Seq<(DocumentId, Option<IdentifierMode>)>,
    fam: BindingFamily,
    a: int,
    b: int,
)
    requires
        0 <= a < docs.len(),
        0 <= b < docs[a].symbols@.len(),
    ensures
        forall|k: Seq<char>, h: (Seq<char>, usize)|
            #[trigger] declared_before(docs, inherited, fam, a, b + 1, k, h) <==> (declared_before(
                docs,
                inherited,
                fam,
                a,
                b,
                k,
                h,
            ) || declared_at(docs, inherited, fam, a, b, k, h)),
{
    assert forall|k: Seq<char>, h: (Seq<char>, usize)|
        #[trigger] declared_before(docs, inherited, fam, a, b + 1, k, h) <==> (declared_before(
            docs,
            inherited,
            fam,
            a,
            b,
            k,
            h,
        ) || declared_at(docs, inherited, fam, a, b, k, h)) by {
        if declared_before(docs, inherited, fam, a, b + 1, k, h) {
            let (a2, b2) = choose|a2: int, b2: int|
                (a2 < a || (a2 == a && b2 < b + 1)) && #[trigger] declared_at(docs, inherited, fam, a2, b2, k, h);
            if !(a2 == a && b2 == b) {
                assert(declared_before(docs, inherited, fam, a, b, k, h));
            }
        }
        if declared_before(docs, inherited, fam, a, b, k, h) {
            let (a2, b2) = choose|a2: int, b2: int|
                (a2 < a || (a2 == a && b2 < b)) && #[trigger] declared_at(docs, inherited, fam, a2, b2, k, h);
            assert(declared_at(docs, inherited, fam, a2, b2, k, h));
        }
        if declared_at(docs, inherited, fam, a, b, k, h) {
            assert(declared_at(docs, inherited, fam, a, b, k, h));
        }
    }
}

proof fn lemma_declared_next_doc(
    docs: Seq<&WorkspaceSemanticDocumentFacts>,
    inherited: Seq<(DocumentId, Option<IdentifierMode>)>,
    fam: BindingFamily,
    a: int,
)
    requires
        0 <= a < docs.len(),
    ensures
        forall|k: Seq<char>, h: (Seq<char>, usize)|
            #[trigger] declared_before(docs, inherited, fam, a + 1, 0, k, h) <==> declared_before(
                docs,
                inherited,
                fam,
                a,
                docs[a].symbols@.len() as int,
                k,
                h,
            ),
{
    assert forall|k: Seq<char>, h: (Seq<char>, usize)|
        #[trigger] declared_before(docs, inherited, fam, a + 1, 0, k, h) <==> declared_before(
            docs,
            inherited,
            fam,
            a,
            docs[a].symbols@.len() as int,
            k,
            h,
        ) by {
        if declared_before(docs, inherited, fam, a + 1, 0, k, h) {
            let (a2, b2) = choose|a2: int, b2: int|
                (a2 < a + 1 || (a2 == a + 1 && b2 < 0)) && #[trigger] declared_at(docs, inherited, fam, a2, b2, k, h);
            assert(declared_at(docs, inherited, fam, a2, b2, k, h));
        }
        if declared_before(docs, inherited, fam, a, docs[a].symbols@.len() as int, k, h) {
            let (a2, b2) = choose|a2: int, b2: int|
                (a2 < a || (a2 == a && b2 < docs[a].symbols@.len())) && #[trigger] declared_at(
                    docs,
                    inherited,
                    fam,
                    a2,
                    b2,
                    k,
                    h,
                );
            assert(declared_at(docs, inherited, fam, a2, b2, k, h));
        }
    }
}

proof fn lemma_declared_empty(
    docs: Seq<&WorkspaceSemanticDocumentFacts>,
    inherited: Seq<(DocumentId, Option<IdentifierMode>)>,
    fam: BindingFamily,
)
    ensures
        forall|k: Seq<char>, h: (Seq<char>, usize)| !#[trigger] declared_before(docs, inherited, fam, 0, 0, k, h),
{
    assert forall|k: Seq<char>, h: (Seq<char>, usize)| !#[trigger] declared_before(docs, inherited, fam, 0, 0, k, h) by {
        if declared_before(docs, inherited, fam, 0, 0, k, h) {
            let (a2, b2) = choose|a2: int, b2: int|
                (a2 < 0 || (a2 == 0 && b2 < 0)) && #[trigger] declared_at(docs, inherited, fam, a2, b2, k, h);
        }
    }
}

proof fn lemma_tables_transfer(
    docs: Seq<&WorkspaceSemanticDocumentFacts>,
    inherited: Seq<(DocumentId, Option<IdentifierMode>)>,
    fam: BindingFamily,
    grouped: Seq<(String, Vec<SymbolHandle>)>,
    unique: Seq<(String, SymbolHandle)>,
    duplicate: Seq<(String, Vec<SymbolHandle>)>,
)
    requires
        groups_nonempty(grouped),
        forall|k: Seq<char>, h: (Seq<char>, usize)| #[trigger] table_has(grouped, k, h) <==> declares(
            docs,
            inherited,
            fam,
            k,
            h,
        ),
        keys_sorted(unique),
        keys_sorted(duplicate),
        forall|k: Seq<char>| #[trigger] split_correct_at(grouped, unique, duplicate, k),
        forall|i: int|
            0 <= i < duplicate.len() ==> strictly_sorted((#[trigger] duplicate[i]).1@) && (forall|
                h: (Seq<char>, usize),
            | #[trigger] holds(duplicate[i].1@, h) <==> table_has(grouped, duplicate[i].0@, h)),
    ensures
        family_tables_correct(docs, inherited, fam, unique, duplicate),
{
    assert forall|k: Seq<char>|
        #![trigger unique_get(unique, k)]
        #![trigger dup_has(duplicate, k)]
        {
        &&& (unique_get(unique, k) is Some <==> single_declared(docs, inherited, fam, k))
        &&& (unique_get(unique, k) matches Some(h) ==> declares(docs, inherited, fam, k, h))
        &&& (dup_has(duplicate, k) <==> (key_declared(docs, inherited, fam, k) && !single_declared(
            docs,
            inherited,
            fam,
            k,
        )))
    } by {
        assert(split_correct_at(grouped, unique, duplicate, k));
        assert(single_handle(grouped, k) <==> single_declared(docs, inherited, fam, k)) by {
            if single_handle(grouped, k) {
                let w = choose|w: (Seq<char>, usize)| only_handle(grouped, k, w);
                assert forall|h2: (Seq<char>, usize)| #[trigger] declares(docs, inherited, fam, k, h2) <==> h2
                    == w by {
                    assert(table_has(grouped, k, h2) <==> declares(docs, inherited, fam, k, h2));
                }
                assert(only_declared(docs, inherited, fam, k, w));
            }
            if single_declared(docs, inherited, fam, k) {
                let w = choose|w: (Seq<char>, usize)| only_declared(docs, inherited, fam, k, w);
                assert forall|h2: (Seq<char>, usize)| #[trigger] table_has(grouped, k, h2) <==> h2 == w by {
                    assert(table_has(grouped, k, h2) <==> declares(docs, inherited, fam, k, h2));
                }
                assert(only_handle(grouped, k, w));
            }
        }
        assert(has_key(grouped, k) <==> key_declared(docs, inherited, fam, k)) by {
            if has_key(grouped, k) {
                let i = choose|i: int| 0 <= i < grouped.len() && (#[trigger] grouped[i]).0@ == k;
                assert(grouped[i].1@.len() > 0);
                assert(holds(grouped[i].1@, grouped[i].1@[0]@));
                assert(table_has(grouped, k, grouped[i].1@[0]@));
            }
            if key_declared(docs, inherited, fam, k) {
                let h = choose|h: (Seq<char>, usize)| #[trigger] declares(docs, inherited, fam, k, h);
                assert(table_has(grouped, k, h));
            }
        }
    }
    assert forall|i: int| 0 <= i < duplicate.len() implies strictly_sorted((#[trigger] duplicate[i]).1@) && (
    forall|h: (Seq<char>, usize)| #[trigger] holds(duplicate[i].1@, h) <==> declares(
        docs,
        inherited,
        fam,
        duplicate[i].0@,
        h,
    )) by {
        assert forall|h: (Seq<char>, usize)| #[trigger] holds(duplicate[i].1@, h) <==> declares(
            docs,
            inherited,
            fam,
            duplicate[i].0@,
            h,
        ) by {
            assert(holds(duplicate[i].1@, h) <==> table_has(grouped, duplicate[i].0@, h));
            assert(table_has(grouped, duplicate[i].0@, h) <==> declares(docs, inherited, fam, duplicate[i].0@, h));
        }
    }
}

/// The binding tables of one workspace instance.
pub struct WorkspaceBindingTables {
    /// The effective element-identifier mode of each document, in document order.
    pub element_modes: Vec<(DocumentId, ElementIdentifierMode)>,
    /// Element keys bound by exactly one symbol.
    pub unique_elements: Vec<(String, SymbolHandle)>,
    /// Element keys bound by several symbols.
    pub duplicate_elements: Vec<(String, Vec<SymbolHandle>)>,
    /// Deployment keys bound by exactly one symbol.
    pub unique_deployments: Vec<(String, SymbolHandle)>,
    /// Deployment keys bound by several symbols.
    pub duplicate_deployments: Vec<(String, Vec<SymbolHandle>)>,
    /// Relationship identifiers bound by exactly one relationship.
    pub unique_relationships: Vec<(String, SymbolHandle)>,
    /// Relationship identifiers bound by several relationships.
    pub duplicate_relationships: Vec<(String, Vec<SymbolHandle>)>,
    /// Duplicate-binding diagnostics.
    pub semantic_diagnostics: Vec<RuledDiagnostic>,
}

/// Whether the binding tables hold the handle `h`, bound alone or among the duplicates, in
/// any family.
pub open spec fn tables_hold(t: &WorkspaceBindingTables, h: (Seq<char>, usize)) -> bool {
    ||| exists|i: int| 0 <= i < t.unique_elements@.len() && (#[trigger] t.unique_elements@[i]).1@ == h
    ||| exists|i: int| 0 <= i < t.unique_deployments@.len() && (#[trigger] t.unique_deployments@[i]).1@ == h
    ||| exists|i: int| 0 <= i < t.unique_relationships@.len() && (#[trigger] t.unique_relationships@[i]).1@ == h
    ||| exists|i: int, j: int|
        0 <= i < t.duplicate_elements@.len() && 0 <= j < t.duplicate_elements@[i].1@.len()
            && (#[trigger] t.duplicate_elements@[i].1@[j])@ == h
    ||| exists|i: int, j: int|
        0 <= i < t.duplicate_deployments@.len() && 0 <= j < t.duplicate_deployments@[i].1@.len()
            && (#[trigger] t.duplicate_deployments@[i].1@[j])@ == h
    ||| exists|i: int, j: int|
        0 <= i < t.duplicate_relationships@.len() && 0 <= j < t.duplicate_relationships@[i].1@.len()
            && (#[trigger] t.duplicate_relationships@[i].1@[j])@ == h
}

/// Each entry of a family's unique table, and each handle of its duplicate table, is a
/// declaration of its key in that family.
proof fn lemma_family_entries_declared(
    docs: Seq<&WorkspaceSemanticDocumentFacts>,
    inherited: Seq<(DocumentId, Option<IdentifierMode>)>,
    fam: BindingFamily,
    unique: Seq<(String, SymbolHandle)>,
    duplicate: Seq<(String, Vec<SymbolHandle>)>,
)
    requires
        family_tables_correct(docs, inherited, fam, unique, duplicate),
    ensures
        forall|i: int| 0 <= i < unique.len() ==> declares(docs, inherited, fam, (#[trigger] unique[i]).0@, unique[i].1@),
        forall|i: int, j: int|
            0 <= i < duplicate.len() && 0 <= j < duplicate[i].1@.len() ==> declares(
                docs,
                inherited,
                fam,
                duplicate[i].0@,
                (#[trigger] duplicate[i].1@[j])@,
            ),
{
    assert forall|i: int| 0 <= i < unique.len() implies declares(docs, inherited, fam, (#[trigger] unique[i]).0@, unique[i].1@) by {
        assert forall|j: int| 0 <= j < i implies (#[trigger] unique[j]).0@ != unique[i].0@ by {
            crate::rule::lemma_seq_lt_irreflexive(unique[i].0@);
        }
        lemma_unique_get_at(unique, unique[i].0@, i);
        assert(unique_get(unique, unique[i].0@) == Some(unique[i].1@));
    }
    assert forall|i: int, j: int|
        0 <= i < duplicate.len() && 0 <= j < duplicate[i].1@.len() implies declares(
        docs,
        inherited,
        fam,
        duplicate[i].0@,
        (#[trigger] duplicate[i].1@[j])@,
    ) by {
        assert(holds(duplicate[i].1@, duplicate[i].1@[j]@));
    }
}

/// Every handle that the binding tables of an instance hold under a key, unique or among
/// the duplicates, in the element, deployment or relationship family, is a declaration of
/// that key: some symbol of one of the instance's documents binds the key in that family,
/// and the handle names that document and that symbol's id.
pub proof fn bound_handles_are_declarations(
    documents: Seq<&WorkspaceSemanticDocumentFacts>,
    inherited: Seq<(DocumentId, Option<IdentifierMode>)>,
    r: &WorkspaceBindingTables,
)
    requires
        binding_tables_ok(documents, inherited, r),
    ensures
        forall|i: int|
            0 <= i < r.unique_elements@.len() ==> declares(
                documents,
                inherited,
                BindingFamily::Element,
                (#[trigger] r.unique_elements@[i]).0@,
                r.unique_elements@[i].1@,
            ),
        forall|i: int|
            0 <= i < r.unique_deployments@.len() ==> declares(
                documents,
                inherited,
                BindingFamily::Deployment,
                (#[trigger] r.unique_deployments@[i]).0@,
                r.unique_deployments@[i].1@,
            ),
        forall|i: int|
            0 <= i < r.unique_relationships@.len() ==> declares(
                documents,
                inherited,
                BindingFamily::Relationship,
                (#[trigger] r.unique_relationships@[i]).0@,
                r.unique_relationships@[i].1@,
            ),
        forall|i: int, j: int|
            0 <= i < r.duplicate_elements@.len() && 0 <= j < r.duplicate_elements@[i].1@.len() ==> declares(
                documents,
                inherited,
                BindingFamily::Element,
                r.duplicate_elements@[i].0@,
                (#[trigger] r.duplicate_elements@[i].1@[j])@,
            ),
        forall|i: int, j: int|
            0 <= i < r.duplicate_deployments@.len() && 0 <= j < r.duplicate_deployments@[i].1@.len() ==> declares(
                documents,
                inherited,
                BindingFamily::Deployment,
                r.duplicate_deployments@[i].0@,
                (#[trigger] r.duplicate_deployments@[i].1@[j])@,
            ),
        forall|i: int, j: int|
            0 <= i < r.duplicate_relationships@.len() && 0 <= j < r.duplicate_relationships@[i].1@.len() ==> declares(
                documents,
                inherited,
                BindingFamily::Relationship,
                r.duplicate_relationships@[i].0@,
                (#[trigger] r.duplicate_relationships@[i].1@[j])@,
            ),
{
    lemma_family_entries_declared(documents, inherited, BindingFamily::Element, r.unique_elements@, r.duplicate_elements@);
    lemma_family_entries_declared(
        documents,
        inherited,
        BindingFamily::Deployment,
        r.unique_deployments@,
        r.duplicate_deployments@,
    );
    lemma_family_entries_declared(
        documents,
        inherited,
        BindingFamily::Relationship,
        r.unique_relationships@,
        r.duplicate_relationships@,
    );
}



/// The grouped-table invariant of one family while symbols are scanned up to `(a, b)`.
pub open spec fn grouped_upto(
    t: Seq<(String, Vec<SymbolHandle>)>,
    docs: Seq<&WorkspaceSemanticDocumentFacts>,
    inherited: Seq<(DocumentId, Option<IdentifierMode>)>,
    fam: BindingFamily,
    a: int,
    b: int,
) -> bool {
    &&& keys_sorted(t)
    &&& groups_nonempty(t)
    &&& forall|k: Seq<char>, h: (Seq<char>, usize)| #[trigger] table_has(t, k, h) <==> declared_before(
        docs,
        inherited,
        fam,
        a,
        b,
        k,
        h,
    )
}

/// The binding tables of an instance: each document's effective mode, the element, deployment
/// and relationship tables split into unique and duplicate keys, and duplicate-binding
/// diagnostics only.
pub open spec fn binding_tables_ok(
    documents: Seq<&WorkspaceSemanticDocumentFacts>,
    inherited: Seq<(DocumentId, Option<IdentifierMode>)>,
    r: &WorkspaceBindingTables,
) -> bool {
    &&& r.element_modes@.len() == documents.len()
    &&& forall|a: int|
        0 <= a < documents.len() ==> (#[trigger] r.element_modes@[a]).0 == documents[a].document_id
            && r.element_modes@[a].1 == doc_mode(documents[a], inherited)
    &&& family_tables_correct(documents, inherited, BindingFamily::Element, r.unique_elements@, r.duplicate_elements@)
    &&& family_tables_correct(
        documents,
        inherited,
        BindingFamily::Deployment,
        r.unique_deployments@,
        r.duplicate_deployments@,
    )
    &&& family_tables_correct(
        documents,
        inherited,
        BindingFamily::Relationship,
        r.unique_relationships@,
        r.duplicate_relationships@,
    )
    &&& forall|m: int|
        0 <= m < r.semantic_diagnostics@.len() ==> crate::diagnostics::code_of(#[trigger] r.semantic_diagnostics@[m])
            == "semantic.duplicate-binding"@
    &&& binding_reports_ok(documents, r, r.semantic_diagnostics@)
}

/// The duplicate-binding reports of an instance: those of the element keys, then the
/// deployment keys, then the relationship keys.
pub open spec fn binding_reports_ok(
    documents: Seq<&WorkspaceSemanticDocumentFacts>,
    r: &WorkspaceBindingTables,
    s: Seq<RuledDiagnostic>,
) -> bool {
    let e = dup_positions(documents, r.duplicate_elements@, r.duplicate_elements@.len() as int).len() as int;
    let f = dup_positions(documents, r.duplicate_deployments@, r.duplicate_deployments@.len() as int).len() as int;
    let g = dup_positions(documents, r.duplicate_relationships@, r.duplicate_relationships@.len() as int).len() as int;
    &&& s.len() == e + f + g
    &&& dup_reports_ok("element"@, r.duplicate_elements@, documents, s.subrange(0, e))
    &&& dup_reports_ok("deployment"@, r.duplicate_deployments@, documents, s.subrange(e, e + f))
    &&& dup_reports_ok("relationship"@, r.duplicate_relationships@, documents, s.subrange(e + f, e + f + g))
}

/// Assembles the element, deployment, and relationship binding tables of one workspace
/// instance, plus one duplicate-binding diagnostic per declaration site of a duplicated key.
pub fn build_binding_tables(
    documents: &[&WorkspaceSemanticDocumentFacts],
    inherited_workspace_modes: &[(DocumentId, Option<IdentifierMode>)],
) -> (r: WorkspaceBindingTables)
    requires
        documents_well_formed(documents@),
    ensures
        binding_tables_ok(documents@, inherited_workspace_modes@, &r),

{
    let ghost docs = documents@;
    let ghost inh = inherited_workspace_modes@;
    let mut element_modes: Vec<(DocumentId, ElementIdentifierMode)> = Vec::new();
    let mut elements: Vec<(String, Vec<SymbolHandle>)> = Vec::new();
    let mut deployments: Vec<(String, Vec<SymbolHandle>)> = Vec::new();
    let mut relationships: Vec<(String, Vec<SymbolHandle>)> = Vec::new();
    proof {
        lemma_declared_empty(docs, inh, BindingFamily::Element);
        lemma_declared_empty(docs, inh, BindingFamily::Deployment);
        lemma_declared_empty(docs, inh, BindingFamily::Relationship);
    }
    let mut a: usize = 0;
    while a < documents.len()
        invariant
            docs == documents@,
            inh == inherited_workspace_modes@,
            documents_well_formed(docs),
            a <= docs.len(),
            element_modes@.len() == a,
            forall|i: int|
                0 <= i < a ==> (#[trigger] element_modes@[i]).0 == docs[i].document_id
                    && element_modes@[i].1 == doc_mode(docs[i], inh),
            grouped_upto(elements@, docs, inh, BindingFamily::Element, a as int, 0),
            grouped_upto(deployments@, docs, inh, BindingFamily::Deployment, a as int, 0),
            grouped_upto(relationships@, docs, inh, BindingFamily::Relationship, a as int, 0),
        decreases docs.len() - a,
    {
        let doc = documents[a];
        let inherited = inherited_mode_lookup(inherited_workspace_modes, &doc.document_id);
        let mode = effective_element_identifier_mode_from_facts(doc.identifier_modes.as_slice(), inherited);
        assert(mode == doc_mode(doc, inh));
        element_modes.push((doc.document_id.clone(), mode));
        assert(facts_well_formed(docs[a as int]));
        let mut b: usize = 0;
        while b < doc.symbols.len()
            invariant
                docs == documents@,
                inh == inherited_workspace_modes@,
                0 <= a < docs.len(),
                doc == docs[a as int],
                mode == doc_mode(doc, inh),
                parents_precede(doc.symbols@),
                b <= doc.symbols@.len(),
                grouped_upto(elements@, docs, inh, BindingFamily::Element, a as int, b as int),
                grouped_upto(deployments@, docs, inh, BindingFamily::Deployment, a as int, b as int),
                grouped_upto(relationships@, docs, inh, BindingFamily::Relationship, a as int, b as int),
            decreases doc.symbols.len() - b,
        {
            let symbol = &doc.symbols[b];
            proof {
                lemma_declared_step(docs, inh, BindingFamily::Element, a as int, b as int);
                lemma_declared_step(docs, inh, BindingFamily::Deployment, a as int, b as int);
                lemma_declared_step(docs, inh, BindingFamily::Relationship, a as int, b as int);
            }
            match &symbol.binding_name {
                None => {},
                Some(name) => {
                    let handle = SymbolHandle::new(doc.document_id.clone(), symbol.id);
                    if symbol.kind == SymbolKind::Relationship {
                        add_binding(&mut relationships, name.clone(), handle);
                    } else if symbol.kind.is_element() {
                        proof {
                            if symbol.id.0 < doc.symbols@.len() {
                                crate::workspace::bindings::lemma_ordered_chain_ends(doc.symbols@, symbol.id.0 as int);
                            }
                        }
                        let key = canonical_binding_key(
                            doc.symbols.as_slice(),
                            symbol.id,
                            mode,
                            CanonicalBindingKind::Element,
                        );
                        match key {
                            Some(key) => add_binding(&mut elements, key, handle),
                            None => {},
                        }
                    } else {
                        proof {
                            if symbol.id.0 < doc.symbols@.len() {
                                crate::workspace::bindings::lemma_ordered_chain_ends(doc.symbols@, symbol.id.0 as int);
                            }
                        }
                        let key = canonical_binding_key(
                            doc.symbols.as_slice(),
                            symbol.id,
                            mode,
                            CanonicalBindingKind::Deployment,
                        );
                        match key {
                            Some(key) => add_binding(&mut deployments, key, handle),
                            None => {},
                        }
                    }
                },
            }
            b = b + 1;
        }
        proof {
            lemma_declared_next_doc(docs, inh, BindingFamily::Element, a as int);
            lemma_declared_next_doc(docs, inh, BindingFamily::Deployment, a as int);
            lemma_declared_next_doc(docs, inh, BindingFamily::Relationship, a as int);
        }
        a = a + 1;
    }
    let (unique_elements, duplicate_elements) = split_binding_table(&elements);
    let (unique_deployments, duplicate_deployments) = split_binding_table(&deployments);
    let (unique_relationships, duplicate_relationships) = split_binding_table(&relationships);
    proof {
        lemma_tables_transfer(
            docs,
            inh,
            BindingFamily::Element,
            elements@,
            unique_elements@,
            duplicate_elements@,
        );
        lemma_tables_transfer(
            docs,
            inh,
            BindingFamily::Deployment,
            deployments@,
            unique_deployments@,
            duplicate_deployments@,
        );
        lemma_tables_transfer(
            docs,
            inh,
            BindingFamily::Relationship,
            relationships@,
            unique_relationships@,
            duplicate_relationships@,
        );
    }
    let mut semantic_diagnostics: Vec<RuledDiagnostic> = Vec::new();
    push_duplicate_binding_diagnostics("element", &duplicate_elements, documents, &mut semantic_diagnostics);
    let ghost d1 = semantic_diagnostics@;
    push_duplicate_binding_diagnostics(
        "deployment",
        &duplicate_deployments,
        documents,
        &mut semantic_diagnostics,
    );
    let ghost d2 = semantic_diagnostics@;
    push_duplicate_binding_diagnostics(
        "relationship",
        &duplicate_relationships,
        documents,
        &mut semantic_diagnostics,
    );
    proof {
        let d3 = semantic_diagnostics@;
        let e = d1.len() as int;
        let f = d2.len() - d1.len();
        assert(d1.subrange(0, d1.len() as int) =~= d1);
        assert(d3.subrange(0, e) =~= d1);
        assert(d3.subrange(0, d2.len() as int) == d2);
        assert(d3.subrange(e, e + f) =~= d2.subrange(e, d2.len() as int));
        lemma_dup_reports_codes("element"@, duplicate_elements@, docs, d1);
        lemma_dup_reports_codes("deployment"@, duplicate_deployments@, docs, d2.subrange(e, d2.len() as int));
        lemma_dup_reports_codes(
            "relationship"@,
            duplicate_relationships@,
            docs,
            d3.subrange(d2.len() as int, d3.len() as int),
        );
        assert forall|m: int| 0 <= m < d3.len() implies crate::diagnostics::code_of(#[trigger] d3[m])
            == "semantic.duplicate-binding"@ by {
            if m < e {
                assert(d3[m] == d1[m]);
            } else if m < d2.len() {
                assert(d3[m] == d2[m]);
                assert(d2[m] == d2.subrange(e, d2.len() as int)[m - e]);
            } else {
                assert(d3[m] == d3.subrange(d2.len() as int, d3.len() as int)[m - d2.len()]);
            }
        }
    }
    let tables = WorkspaceBindingTables {
        element_modes,
        unique_elements,
        duplicate_elements,
        unique_deployments,
        duplicate_deployments,
        unique_relationships,
        duplicate_relationships,
        semantic_diagnostics,
    };
    proof {
        let d3 = tables.semantic_diagnostics@;
        let e = d1.len() as int;
        let f = d2.len() - d1.len();
        assert(d3.subrange(0, e) =~= d1);
        assert(d3.subrange(e, e + f) =~= d2.subrange(e, d2.len() as int));
        assert(binding_reports_ok(docs, &tables, d3));
    }
    tables
}

/// Index of the first document of `docs` whose identifier is `id`, or -1.
pub open spec fn find_doc_index(docs: Seq<&WorkspaceSemanticDocumentFacts>, id: Seq<char>) -> int
    decreases docs.len(),
{
    if docs.len() == 0 {
        -1
    } else if docs[0].document_id@ == id {
        0
    } else {
        let r = find_doc_index(docs.drop_first(), id);
        if r < 0 {
            -1
        } else {
            r + 1
        }
    }
}

pub proof fn lemma_find_doc_index(docs: Seq<&WorkspaceSemanticDocumentFacts>, id: Seq<char>)
    ensures
        -1 <= find_doc_index(docs, id) < docs.len(),
        find_doc_index(docs, id) >= 0 ==> docs[find_doc_index(docs, id)].document_id@ == id,
        find_doc_index(docs, id) < 0 ==> forall|a: int| 0 <= a < docs.len() ==> (#[trigger] docs[a]).document_id@ != id,
    decreases docs.len(),
{
    if docs.len() > 0 && docs[0].document_id@ != id {
        lemma_find_doc_index(docs.drop_first(), id);
        assert forall|a: int| 0 < a < docs.len() implies (#[trigger] docs[a]) == docs.drop_first()[a - 1] by {}
    }
}

/// Finds the first document with identifier `id`, if any.
pub fn find_document<'a>(docs: &[&'a WorkspaceSemanticDocumentFacts], id: &DocumentId) -> (r: Option<
    &'a WorkspaceSemanticDocumentFacts,
>)
    ensures
        match r {
            Some(d) => find_doc_index(docs@, id@) >= 0 && d == docs@[find_doc_index(docs@, id@)],
            None => find_doc_index(docs@, id@) < 0,
        },
{
    let mut i: usize = 0;
    assert(docs@.skip(0) =~= docs@);
    while i < docs.len()
        invariant
            i <= docs@.len(),
            find_doc_index(docs@, id@) == (if find_doc_index(docs@.skip(i as int), id@) < 0 {
                -1
            } else {
                find_doc_index(docs@.skip(i as int), id@) + i
            }),
        decreases docs.len() - i,
    {
        assert(docs@.skip(i as int)[0] == docs@[i as int]);
        assert(docs@.skip(i as int).drop_first() =~= docs@.skip(i + 1));
        if docs[i].document_id.same(id) {
            return Some(docs[i]);
        }
        i = i + 1;
    }
    assert(docs@.skip(i as int).len() == 0);
    None
}

/// `a` is secondary context at `span` of `related` saying `message`, naming `related` only when
/// it is not the `primary` document.
pub open spec fn note_at(a: Annotation, primary: Seq<char>, related: Seq<char>, span: TextSpan, message: Seq<char>) -> bool {
    &&& a.span == span
    &&& (a.message matches Some(m) && m@ == message)
    &&& (primary == related ==> a.document is None)
    &&& (primary != related ==> (a.document matches Some(x) && x@ == related))
}

/// Attaches `message` to `span` as secondary context, naming `related` when it differs from
/// `primary`.
pub fn secondary_annotation(
    primary: &DocumentId,
    related: &DocumentId,
    span: TextSpan,
    message: String,
) -> (r: Annotation)
    ensures
        r.span == span,
        r.message == Some(message),
        primary@ == related@ ==> r.document is None,
        primary@ != related@ ==> r.document == Some(*related),
        note_at(r, primary@, related@, span, message@),
{
    let annotation = if primary.same(related) {
        Annotation::secondary(span)
    } else {
        Annotation::secondary(span).in_document(related)
    };
    annotation.message(message)
}

/// Whether `d` is the duplicate-binding report for `key` in family `kind`.
pub open spec fn reports_duplicate(d: RuledDiagnostic, kind: Seq<char>, key: Seq<char>) -> bool {
    &&& d.diagnostic.message@ == "duplicate "@ + kind + " binding: "@ + key
    &&& d.diagnostic.target_text matches Some(t) && t@ == key
}

/// The declaration sites of a duplicated key: each handle's symbol and its span, leaving out
/// handles whose document has syntax errors (or is not among `docs`).
pub open spec fn dup_sites(docs: Seq<&WorkspaceSemanticDocumentFacts>, handles: Seq<SymbolHandle>) -> Seq<
    (SymbolHandle, TextSpan),
>
    decreases handles.len(),
{
    if handles.len() == 0 {
        Seq::empty()
    } else {
        let rest = dup_sites(docs, handles.drop_last());
        let h = handles.last();
        let a = find_doc_index(docs, h.document@);
        if a >= 0 && !docs[a].has_syntax_errors && h.symbol_id.0 < docs[a].symbols@.len() {
            rest.push((h, docs[a].symbols@[h.symbol_id.0 as int].span))
        } else {
            rest
        }
    }
}

/// The positions among the first `t` sites whose handle differs from that of site `s`.
pub open spec fn other_sites(sites: Seq<(SymbolHandle, TextSpan)>, s: int, t: int) -> Seq<int>
    decreases t,
{
    if t <= 0 {
        Seq::empty()
    } else {
        let rest = other_sites(sites, s, t - 1);
        if sites[t - 1].0@ != sites[s].0@ {
            rest.push(t - 1)
        } else {
            rest
        }
    }
}

/// `d` reports site `s` of the duplicated `key`, with every other site as secondary context.
pub open spec fn dup_report_ok(
    d: RuledDiagnostic,
    kind: Seq<char>,
    key: Seq<char>,
    sites: Seq<(SymbolHandle, TextSpan)>,
    s: int,
) -> bool {
    let others = other_sites(sites, s, sites.len() as int);
    &&& crate::diagnostics::code_of(d) == "semantic.duplicate-binding"@
    &&& reports_duplicate(d, kind, key)
    &&& d.diagnostic.span == sites[s].1
    &&& d.diagnostic.document == Some(sites[s].0.document)
    &&& d.diagnostic.value_span is None
    &&& d.diagnostic.annotations@.len() == others.len()
    &&& forall|n: int|
        0 <= n < others.len() ==> note_at(
            #[trigger] d.diagnostic.annotations@[n],
            sites[s].0.document@,
            sites[others[n]].0.document@,
            sites[others[n]].1,
            "other "@ + kind + " binding for "@ + key + " is declared here"@,
        )
}

/// The reports owed for the first `i` duplicated keys, as (key, site) positions.
pub open spec fn dup_positions(
    docs: Seq<&WorkspaceSemanticDocumentFacts>,
    dups: Seq<(String, Vec<SymbolHandle>)>,
    i: int,
) -> Seq<(int, int)>
    decreases i,
{
    if i <= 0 {
        Seq::empty()
    } else {
        dup_positions(docs, dups, i - 1) + Seq::new(
            dup_sites(docs, dups[i - 1].1@).len(),
            |s: int| (i - 1, s),
        )
    }
}

/// `s` holds one report per declaration site of each duplicated key, key by key, sites in
/// handle order.
pub open spec fn dup_reports_ok(
    kind: Seq<char>,
    dups: Seq<(String, Vec<SymbolHandle>)>,
    docs: Seq<&WorkspaceSemanticDocumentFacts>,
    s: Seq<RuledDiagnostic>,
) -> bool {
    let ps = dup_positions(docs, dups, dups.len() as int);
    &&& s.len() == ps.len()
    &&& forall|m: int|
        0 <= m < s.len() ==> dup_report_ok(
            #[trigger] s[m],
            kind,
            dups[ps[m].0].0@,
            dup_sites(docs, dups[ps[m].0].1@),
            ps[m].1,
        )
}

proof fn lemma_dup_reports_codes(
    kind: Seq<char>,
    dups: Seq<(String, Vec<SymbolHandle>)>,
    docs: Seq<&WorkspaceSemanticDocumentFacts>,
    s: Seq<RuledDiagnostic>,
)
    requires
        dup_reports_ok(kind, dups, docs, s),
    ensures
        forall|m: int| 0 <= m < s.len() ==> crate::diagnostics::code_of(#[trigger] s[m]) == "semantic.duplicate-binding"@,
{
    let ps = dup_positions(docs, dups, dups.len() as int);
    assert forall|m: int| 0 <= m < s.len() implies crate::diagnostics::code_of(#[trigger] s[m])
        == "semantic.duplicate-binding"@ by {
        assert(dup_report_ok(s[m], kind, dups[ps[m].0].0@, dup_sites(docs, dups[ps[m].0].1@), ps[m].1));
    }
}

/// Reports every declaration site of a duplicated key, with the other sites as secondary
/// context; documents with syntax errors contribute no site.
pub fn push_duplicate_binding_diagnostics(
    binding_kind: &str,
    duplicate_bindings: &Vec<(String, Vec<SymbolHandle>)>,
    documents: &[&WorkspaceSemanticDocumentFacts],
    diagnostics: &mut Vec<RuledDiagnostic>,
)
    ensures
        final(diagnostics)@.len() >= old(diagnostics)@.len(),
        final(diagnostics)@.subrange(0, old(diagnostics)@.len() as int) == old(diagnostics)@,
        dup_reports_ok(
            binding_kind@,
            duplicate_bindings@,
            documents@,
            final(diagnostics)@.subrange(old(diagnostics)@.len() as int, final(diagnostics)@.len() as int),
        ),
{
    let ghost start = diagnostics@;
    let ghost docs = documents@;
    let ghost dups = duplicate_bindings@;
    let ghost kind = binding_kind@;
    let mut i: usize = 0;
    while i < duplicate_bindings.len()
        invariant
            docs == documents@,
            dups == duplicate_bindings@,
            kind == binding_kind@,
            start == old(diagnostics)@,
            i <= dups.len(),
            diagnostics@.len() == start.len() + dup_positions(docs, dups, i as int).len(),
            diagnostics@.subrange(0, start.len() as int) == start,
            forall|m: int|
                0 <= m < dup_positions(docs, dups, i as int).len() ==> dup_report_ok(
                    #[trigger] diagnostics@[start.len() + m],
                    kind,
                    dups[dup_positions(docs, dups, i as int)[m].0].0@,
                    dup_sites(docs, dups[dup_positions(docs, dups, i as int)[m].0].1@),
                    dup_positions(docs, dups, i as int)[m].1,
                ),
        decreases duplicate_bindings.len() - i,
    {
        let key = &duplicate_bindings[i].0;
        let handles = &duplicate_bindings[i].1;
        let mut sites: Vec<(SymbolHandle, TextSpan)> = Vec::new();
        let mut j: usize = 0;
        while j < handles.len()
            invariant
                docs == documents@,
                j <= handles@.len(),
                sites@ == dup_sites(docs, handles@.subrange(0, j as int)),
            decreases handles.len() - j,
        {
            let handle = &handles[j];
            proof {
                assert(handles@.subrange(0, j + 1).drop_last() =~= handles@.subrange(0, j as int));
                assert(handles@.subrange(0, j + 1).last() == handles@[j as int]);
            }
            match find_document(documents, &handle.document) {
                Some(document) => {
                    if !document.has_syntax_errors && handle.symbol_id.0 < document.symbols.len() {
                        sites.push((handle.clone(), document.symbols[handle.symbol_id.0].span));
                    }
                },
                None => {},
            }
            j = j + 1;
        }
        proof {
            assert(handles@.subrange(0, handles@.len() as int) =~= handles@);
        }
        let ghost ps = dup_positions(docs, dups, i as int);
        let ghost ps1 = dup_positions(docs, dups, i + 1);
        proof {
            assert(ps1 == ps + Seq::new(sites@.len(), |x: int| (i as int, x)));
        }
        let mut s: usize = 0;
        while s < sites.len()
            invariant
                docs == documents@,
                dups == duplicate_bindings@,
                kind == binding_kind@,
                i < dups.len(),
                key == dups[i as int].0,
                sites@ == dup_sites(docs, dups[i as int].1@),
                ps == dup_positions(docs, dups, i as int),
                ps1 == ps + Seq::new(sites@.len(), |x: int| (i as int, x)),
                s <= sites@.len(),
                diagnostics@.len() == start.len() + ps.len() + s,
                diagnostics@.subrange(0, start.len() as int) == start,
                forall|m: int|
                    0 <= m < ps.len() + s ==> dup_report_ok(
                        #[trigger] diagnostics@[start.len() + m],
                        kind,
                        dups[ps1[m].0].0@,
                        dup_sites(docs, dups[ps1[m].0].1@),
                        ps1[m].1,
                    ),
            decreases sites.len() - s,
        {
            let mut diagnostic = RuledDiagnostic::duplicate_binding(
                &sites[s].0.document,
                binding_kind,
                key.as_str(),
                sites[s].1,
            );
            let ghost primary = sites@[s as int].0.document@;
            let ghost note = "other "@ + kind + " binding for "@ + key@ + " is declared here"@;
            let mut t: usize = 0;
            while t < sites.len()
                invariant
                    crate::diagnostics::code_of(diagnostic) == "semantic.duplicate-binding"@,
                    reports_duplicate(diagnostic, kind, key@),
                    diagnostic.diagnostic.span == sites@[s as int].1,
                    diagnostic.diagnostic.document == Some(sites@[s as int].0.document),
                    diagnostic.diagnostic.value_span is None,
                    kind == binding_kind@,
                    primary == sites@[s as int].0.document@,
                    note == "other "@ + kind + " binding for "@ + key@ + " is declared here"@,
                    t <= sites@.len(),
                    s < sites@.len(),
                    diagnostic.diagnostic.annotations@.len() == other_sites(sites@, s as int, t as int).len(),
                    forall|n: int|
                        0 <= n < other_sites(sites@, s as int, t as int).len() ==> note_at(
                            #[trigger] diagnostic.diagnostic.annotations@[n],
                            primary,
                            sites@[other_sites(sites@, s as int, t as int)[n]].0.document@,
                            sites@[other_sites(sites@, s as int, t as int)[n]].1,
                            note,
                        ),
                decreases sites.len() - t,
            {
                let ghost before = diagnostic.diagnostic.annotations@;
                if !sites[t].0.same(&sites[s].0) {
                    let mut message = crate::text::cat3("other ", binding_kind, " binding for ");
                    message.append(key.as_str());
                    message.append(" is declared here");
                    diagnostic.annotate(
                        secondary_annotation(&sites[s].0.document, &sites[t].0.document, sites[t].1, message),
                    );
                    proof {
                        let o = other_sites(sites@, s as int, t as int);
                        assert(other_sites(sites@, s as int, t + 1) == o.push(t as int));
                        assert forall|n: int| 0 <= n < o.len() + 1 implies note_at(
                            #[trigger] diagnostic.diagnostic.annotations@[n],
                            primary,
                            sites@[o.push(t as int)[n]].0.document@,
                            sites@[o.push(t as int)[n]].1,
                            note,
                        ) by {
                            if n < o.len() {
                                assert(diagnostic.diagnostic.annotations@[n] == before[n]);
                            }
                        }
                    }
                } else {
                    proof {
                        assert(other_sites(sites@, s as int, t + 1) == other_sites(sites@, s as int, t as int));
                    }
                }
                t = t + 1;
            }
            let ghost before = diagnostics@;
            diagnostics.push(diagnostic);
            proof {
                assert(diagnostics@.subrange(0, start.len() as int) =~= before.subrange(0, start.len() as int));
                assert(ps1[ps.len() + s] == (i as int, s as int));
                assert forall|m: int| 0 <= m < ps.len() + s + 1 implies dup_report_ok(
                    #[trigger] diagnostics@[start.len() + m],
                    kind,
                    dups[ps1[m].0].0@,
                    dup_sites(docs, dups[ps1[m].0].1@),
                    ps1[m].1,
                ) by {
                    if m < ps.len() + s {
                        assert(diagnostics@[start.len() + m] == before[start.len() + m]);
                    }
                }
            }
            s = s + 1;
        }
        proof {
            assert forall|m: int| 0 <= m < ps1.len() implies dup_report_ok(
                #[trigger] diagnostics@[start.len() + m],
                kind,
                dups[ps1[m].0].0@,
                dup_sites(docs, dups[ps1[m].0].1@),
                ps1[m].1,
            ) by {}
        }
        i = i + 1;
    }
    proof {
        let ps = dup_positions(docs, dups, dups.len() as int);
        let tail = diagnostics@.subrange(start.len() as int, diagnostics@.len() as int);
        assert forall|m: int| 0 <= m < tail.len() implies dup_report_ok(
            #[trigger] tail[m],
            kind,
            dups[ps[m].0].0@,
            dup_sites(docs, dups[ps[m].0].1@),
            ps[m].1,
        ) by {
            assert(tail[m] == diagnostics@[start.len() + m]);
        }
    }
}

} // verus!
