//! Declared relationships joined to their resolved endpoints, and lookups over resolved sites.

use vstd::prelude::*;

use crate::semantic::{ValueFact, ViewKind};
use crate::snapshot::DocumentId;
use crate::span::TextSpan;
use crate::symbols::{is_element_kind, ReferenceKind, Symbol, SymbolKind};
use crate::workspace::index::{
    documents_well_formed, facts_well_formed, find_doc_index, find_document, WorkspaceBindingTables, WorkspaceSemanticDocumentFacts,
};
use crate::workspace::model::{Resolution, ReferenceResolutionStatus, SymbolHandle};
use crate::workspace::references::{ResolvedSite, SiteEntry, site_views};
use crate::workspace::resolve::{
    best_enclosing_symbol, contextual_owner_resolution, contextual_owner_spec, enclosing_symbol_for_span,
    lemma_best_enclosing_symbol_bounds, ContextualOwnerTarget,
};

verus! {

/// The target of the last resolved site of `document` with this role and span.
pub open spec fn site_target(
    sites: Seq<SiteEntry>,
    document: Seq<char>,
    kind: ReferenceKind,
    span: TextSpan,
) -> Option<(Seq<char>, usize)>
    decreases sites.len(),
{
    if sites.len() == 0 {
        None
    } else if sites.last().0 == document && sites.last().1 == kind && sites.last().2 == span {
        Some(sites.last().3)
    } else {
        site_target(sites.drop_last(), document, kind, span)
    }
}

/// The symbol the reference of this role at `span` in `document` resolved to, if any.
pub fn resolved_reference_target(
    document: &DocumentId,
    reference_kind: ReferenceKind,
    span: TextSpan,
    sites: &Vec<ResolvedSite>,
) -> (r: Option<SymbolHandle>)
    ensures
        match r {
            Some(h) => site_target(site_views(sites@), document@, reference_kind, span) == Some(h@),
            None => site_target(site_views(sites@), document@, reference_kind, span) is None,
        },
{
    let ghost sv = site_views(sites@);
    let mut i: usize = sites.len();
    assert(sv.take(i as int) =~= sv);
    while i > 0
        invariant
            i <= sites@.len(),
            sv == site_views(sites@),
            site_target(sv, document@, reference_kind, span) == site_target(
                sv.take(i as int),
                document@,
                reference_kind,
                span,
            ),
        decreases i,
    {
        assert(sv.take(i as int).drop_last() =~= sv.take(i - 1));
        assert(sv.take(i as int).last() == sv[i - 1]);
        let site = &sites[i - 1];
        if site.document.same(document) && site.kind == reference_kind && site.span == span {
            return Some(site.target.clone());
        }
        i = i - 1;
    }
    assert(sv.take(0) =~= Seq::<SiteEntry>::empty());
    None
}

/// The symbol a handle names, looked up in the first document with the handle's identifier.
pub open spec fn symbol_of(docs: Seq<&WorkspaceSemanticDocumentFacts>, h: (Seq<char>, usize)) -> Option<Symbol> {
    let a = find_doc_index(docs, h.0);
    if a >= 0 && h.1 < docs[a].symbols@.len() {
        Some(docs[a].symbols@[h.1 as int])
    } else {
        None
    }
}

/// Looks up the symbol a handle names.
pub fn symbol_for_handle<'a>(documents: &[&'a WorkspaceSemanticDocumentFacts], handle: &SymbolHandle) -> (r:
    Option<&'a Symbol>)
    ensures
        match r {
            Some(s) => symbol_of(documents@, handle@) == Some(*s),
            None => symbol_of(documents@, handle@) is None,
        },
{
    match find_document(documents, &handle.document) {
        Some(document) => {
            if handle.symbol_id.0 < document.symbols.len() {
                Some(&document.symbols[handle.symbol_id.0])
            } else {
                None
            }
        },
        None => None,
    }
}

/// Whether a view of this kind may show an element of this kind: landscape and context views
/// show people and software systems, container views also containers, component views also
/// components, and the other view families are not checked.
pub open spec fn view_allows(view_kind: ViewKind, symbol_kind: SymbolKind) -> bool {
    match view_kind {
        ViewKind::SystemLandscape | ViewKind::SystemContext => symbol_kind == SymbolKind::Person
            || symbol_kind == SymbolKind::SoftwareSystem,
        ViewKind::Container => symbol_kind == SymbolKind::Person || symbol_kind == SymbolKind::SoftwareSystem
            || symbol_kind == SymbolKind::Container,
        ViewKind::Component => is_element_kind(symbol_kind),
        _ => false,
    }
}

/// Encodes which element kinds each view family may show.
pub fn is_view_element_kind_allowed(view_kind: ViewKind, symbol_kind: SymbolKind) -> (r: bool)
    ensures
        r == view_allows(view_kind, symbol_kind),
{
    match view_kind {
        ViewKind::SystemLandscape | ViewKind::SystemContext => match symbol_kind {
            SymbolKind::Person | SymbolKind::SoftwareSystem => true,
            _ => false,
        },
        ViewKind::Container => match symbol_kind {
            SymbolKind::Person | SymbolKind::SoftwareSystem | SymbolKind::Container => true,
            _ => false,
        },
        ViewKind::Component => symbol_kind.is_element(),
        _ => false,
    }
}

/// A relationship whose endpoints both resolved to model elements.
pub struct DeclaredRelationship {
    /// The relationship's own symbol, when it has an identifier.
    pub handle: Option<SymbolHandle>,
    /// The declaring document.
    pub document: DocumentId,
    /// The relationship's span.
    pub span: TextSpan,
    /// The source element.
    pub source: SymbolHandle,
    /// The destination element.
    pub destination: SymbolHandle,
    /// The declared technology, normalized.
    pub technology: Option<String>,
}

/// A declared relationship by views.
pub type DeclaredView = (
    Option<(Seq<char>, usize)>,
    Seq<char>,
    TextSpan,
    (Seq<char>, usize),
    (Seq<char>, usize),
    Option<Seq<char>>,
);

/// A declared relationship taken by views.
pub open spec fn declared_view(d: DeclaredRelationship) -> DeclaredView {
    (
        match d.handle {
            Some(h) => Some(h@),
            None => None,
        },
        d.document@,
        d.span,
        d.source@,
        d.destination@,
        match d.technology {
            Some(t) => Some(t@),
            None => None,
        },
    )
}

/// Copies a declared relationship.
pub fn clone_declared(d: &DeclaredRelationship) -> (r: DeclaredRelationship)
    ensures
        declared_view(r) == declared_view(*d),
{
    DeclaredRelationship {
        handle: match &d.handle {
            Some(h) => Some(h.clone()),
            None => None,
        },
        document: d.document.clone(),
        span: d.span,
        source: d.source.clone(),
        destination: d.destination.clone(),
        technology: crate::symbols::clone_opt_string(&d.technology),
    }
}

/// Index of the last relationship symbol of `symbols` with this span, or -1.
pub open spec fn relationship_symbol_at(symbols: Seq<Symbol>, span: TextSpan) -> int
    decreases symbols.len(),
{
    if symbols.len() == 0 {
        -1
    } else if symbols.last().kind == SymbolKind::Relationship && symbols.last().span == span {
        symbols.len() - 1
    } else {
        relationship_symbol_at(symbols.drop_last(), span)
    }
}

/// The relationship symbol declared at `span`, if any.
fn relationship_handle_at(document: &WorkspaceSemanticDocumentFacts, span: TextSpan) -> (r: Option<SymbolHandle>)
    ensures
        match r {
            Some(h) => relationship_symbol_at(document.symbols@, span) >= 0 && h@ == (
                document.document_id@,
                document.symbols@[relationship_symbol_at(document.symbols@, span)].id.0,
            ),
            None => relationship_symbol_at(document.symbols@, span) < 0,
        },
{
    let ghost s = document.symbols@;
    let mut i: usize = document.symbols.len();
    assert(s.take(i as int) =~= s);
    while i > 0
        invariant
            i <= s.len(),
            s == document.symbols@,
            relationship_symbol_at(s, span) == relationship_symbol_at(s.take(i as int), span),
        decreases i,
    {
        assert(s.take(i as int).drop_last() =~= s.take(i - 1));
        assert(s.take(i as int).last() == s[i - 1]);
        let symbol = &document.symbols[i - 1];
        if symbol.kind == SymbolKind::Relationship && symbol.span == span {
            return Some(SymbolHandle::new(document.document_id.clone(), symbol.id));
        }
        i = i - 1;
    }
    assert(s.take(0) =~= Seq::<Symbol>::empty());
    None
}

/// The element a relationship endpoint names: an explicit endpoint through its resolved
/// reference (model role first, then deployment role); an implicit source through the
/// relationship's contextual owner.
pub open spec fn endpoint_target(
    document: &WorkspaceSemanticDocumentFacts,
    endpoint: Option<ValueFact>,
    relationship_span: TextSpan,
    primary: ReferenceKind,
    fallback: ReferenceKind,
    tables: &WorkspaceBindingTables,
    sites: Seq<SiteEntry>,
) -> Option<(Seq<char>, usize)> {
    match endpoint {
        None => {
            let b = best_enclosing_symbol(document.symbols@, relationship_span, document.symbols@.len() as int);
            let start = if b >= 0 {
                Some(document.symbols@[b].id)
            } else {
                None
            };
            match contextual_owner_spec(
                document,
                relationship_span,
                start,
                ContextualOwnerTarget::ElementOrDeployment,
                tables,
            ) {
                Resolution::Resolved(h) => Some(h),
                _ => None,
            }
        },
        Some(v) => match site_target(sites, document.document_id@, primary, v.span) {
            Some(h) => Some(h),
            None => site_target(sites, document.document_id@, fallback, v.span),
        },
    }
}

/// Resolves one relationship endpoint.
pub fn resolved_declared_relationship_endpoint(
    document: &WorkspaceSemanticDocumentFacts,
    endpoint: Option<&ValueFact>,
    relationship_span: TextSpan,
    primary_kind: ReferenceKind,
    fallback_kind: ReferenceKind,
    bindings: &WorkspaceBindingTables,
    sites: &Vec<ResolvedSite>,
) -> (r: Option<SymbolHandle>)
    requires
        facts_well_formed(document),
        relationship_span.start_byte <= relationship_span.end_byte,
    ensures
        match r {
            Some(h) => endpoint_target(
                document,
                match endpoint {
                    Some(v) => Some(*v),
                    None => None,
                },
                relationship_span,
                primary_kind,
                fallback_kind,
                bindings,
                site_views(sites@),
            ) == Some(h@),
            None => endpoint_target(
                document,
                match endpoint {
                    Some(v) => Some(*v),
                    None => None,
                },
                relationship_span,
                primary_kind,
                fallback_kind,
                bindings,
                site_views(sites@),
            ) is None,
        },
{
    match endpoint {
        None => {
            let start = enclosing_symbol_for_span(document, relationship_span);
            proof {
                lemma_best_enclosing_symbol_bounds(
                    document.symbols@,
                    relationship_span,
                    document.symbols@.len() as int,
                );
            }
            match contextual_owner_resolution(
                document,
                relationship_span,
                start,
                ContextualOwnerTarget::ElementOrDeployment,
                bindings,
            ) {
                ReferenceResolutionStatus::Resolved(h) => Some(h),
                _ => None,
            }
        },
        Some(value) => match resolved_reference_target(&document.document_id, primary_kind, value.span, sites) {
            Some(h) => Some(h),
            None => resolved_reference_target(&document.document_id, fallback_kind, value.span, sites),
        },
    }
}

/// Whether both endpoint symbols exist and are model elements.
pub open spec fn endpoints_are_elements(
    docs: Seq<&WorkspaceSemanticDocumentFacts>,
    source: (Seq<char>, usize),
    destination: (Seq<char>, usize),
) -> bool {
    &&& symbol_of(docs, source) matches Some(s) && is_element_kind(s.kind)
    &&& symbol_of(docs, destination) matches Some(d) && is_element_kind(d.kind)
}

/// The declared relationship fact `f` of document `a` yields, if its endpoints resolve to
/// model elements.
pub open spec fn declared_entry(
    docs: Seq<&WorkspaceSemanticDocumentFacts>,
    tables: &WorkspaceBindingTables,
    sites: Seq<SiteEntry>,
    a: int,
    f: int,
) -> Option<DeclaredView> {
    let document = docs[a];
    let fact = document.relationship_facts@[f];
    match (
        endpoint_target(
            document,
            fact.source,
            fact.span,
            ReferenceKind::RelationshipSource,
            ReferenceKind::DeploymentRelationshipSource,
            tables,
            sites,
        ),
        endpoint_target(
            document,
            Some(fact.destination),
            fact.span,
            ReferenceKind::RelationshipDestination,
            ReferenceKind::DeploymentRelationshipDestination,
            tables,
            sites,
        ),
    ) {
        (Some(s), Some(d)) => if endpoints_are_elements(docs, s, d) {
            let i = relationship_symbol_at(document.symbols@, fact.span);
            Some(
                (
                    if i >= 0 {
                        Some((document.document_id@, document.symbols@[i].id.0))
                    } else {
                        None
                    },
                    document.document_id@,
                    fact.span,
                    s,
                    d,
                    match fact.technology {
                        Some(t) => Some(t.normalized_text@),
                        None => None,
                    },
                ),
            )
        } else {
            None
        },
        _ => None,
    }
}

/// The declared relationships among the first `f` relationship facts of document `a`.
pub open spec fn doc_declared(
    docs: Seq<&WorkspaceSemanticDocumentFacts>,
    tables: &WorkspaceBindingTables,
    sites: Seq<SiteEntry>,
    a: int,
    f: int,
) -> Seq<DeclaredView>
    decreases f,
{
    if f <= 0 || docs[a].has_syntax_errors {
        Seq::empty()
    } else {
        let rest = doc_declared(docs, tables, sites, a, f - 1);
        match declared_entry(docs, tables, sites, a, f - 1) {
            Some(e) => rest.push(e),
            None => rest,
        }
    }
}

/// The declared relationships of the first `a` documents (documents with syntax errors
/// contribute none).
pub open spec fn all_declared(
    docs: Seq<&WorkspaceSemanticDocumentFacts>,
    tables: &WorkspaceBindingTables,
    sites: Seq<SiteEntry>,
    a: int,
) -> Seq<DeclaredView>
    decreases a,
{
    if a <= 0 {
        Seq::empty()
    } else {
        all_declared(docs, tables, sites, a - 1) + doc_declared(
            docs,
            tables,
            sites,
            a - 1,
            docs[a - 1].relationship_facts@.len() as int,
        )
    }
}

/// Declared relationships by views.
pub open spec fn declared_views(s: Seq<DeclaredRelationship>) -> Seq<DeclaredView> {
    s.map_values(|d: DeclaredRelationship| declared_view(d))
}

/// Joins every declared relationship to its resolved endpoints, keeping those whose endpoints
/// are both model elements.
pub fn collect_declared_relationships(
    documents: &[&WorkspaceSemanticDocumentFacts],
    bindings: &WorkspaceBindingTables,
    sites: &Vec<ResolvedSite>,
) -> (r: Vec<DeclaredRelationship>)
    requires
        documents_well_formed(documents@),
    ensures
        declared_views(r@) == all_declared(documents@, bindings, site_views(sites@), documents@.len() as int),
{
    let ghost docs = documents@;
    let ghost sv = site_views(sites@);
    let mut relationships: Vec<DeclaredRelationship> = Vec::new();
    let mut a: usize = 0;
    while a < documents.len()
        invariant
            docs == documents@,
            sv == site_views(sites@),
            documents_well_formed(docs),
            a <= docs.len(),
            declared_views(relationships@) == all_declared(docs, bindings, sv, a as int),
        decreases docs.len() - a,
    {
        let document = documents[a];
        assert(facts_well_formed(document));
        let mut f: usize = 0;
        if document.has_syntax_errors {
            f = document.relationship_facts.len();
        }
        while f < document.relationship_facts.len() && !document.has_syntax_errors
            invariant
                docs == documents@,
                sv == site_views(sites@),
                documents_well_formed(docs),
                0 <= a < docs.len(),
                document == docs[a as int],
                facts_well_formed(document),
                f <= document.relationship_facts@.len(),
                declared_views(relationships@) == all_declared(docs, bindings, sv, a as int) + doc_declared(
                    docs,
                    bindings,
                    sv,
                    a as int,
                    f as int,
                ),
            decreases document.relationship_facts.len() - f,
        {
            let fact = &document.relationship_facts[f];
            assert(fact.span.start_byte <= fact.span.end_byte);
            let ghost before = relationships@;
            let source = resolved_declared_relationship_endpoint(
                document,
                match &fact.source {
                    Some(v) => Some(v),
                    None => None,
                },
                fact.span,
                ReferenceKind::RelationshipSource,
                ReferenceKind::DeploymentRelationshipSource,
                bindings,
                sites,
            );
            let destination = resolved_declared_relationship_endpoint(
                document,
                Some(&fact.destination),
                fact.span,
                ReferenceKind::RelationshipDestination,
                ReferenceKind::DeploymentRelationshipDestination,
                bindings,
                sites,
            );
            match (source, destination) {
                (Some(source), Some(destination)) => {
                    let elements = match (
                        symbol_for_handle(documents, &source),
                        symbol_for_handle(documents, &destination),
                    ) {
                        (Some(s), Some(d)) => s.kind.is_element() && d.kind.is_element(),
                        _ => false,
                    };
                    if elements {
                        let handle = relationship_handle_at(document, fact.span);
                        let technology = match &fact.technology {
                            Some(t) => Some(t.normalized_text.clone()),
                            None => None,
                        };
                        let entry = DeclaredRelationship {
                            handle,
                            document: document.document_id.clone(),
                            span: fact.span,
                            source,
                            destination,
                            technology,
                        };
                        relationships.push(entry);
                        proof {
                            assert(declared_views(relationships@) =~= declared_views(before).push(
                                declared_view(relationships@.last()),
                            ));
                        }
                    }
                },
                _ => {},
            }
            proof {
                let a0 = a as int;
                let f0 = f as int;
                assert(document.relationship_facts@[f0] == *fact);
                if declared_entry(docs, bindings, sv, a0, f0) is Some {
                    assert(all_declared(docs, bindings, sv, a0) + doc_declared(docs, bindings, sv, a0, f0 + 1)
                        =~= (all_declared(docs, bindings, sv, a0) + doc_declared(docs, bindings, sv, a0, f0)).push(
                        declared_entry(docs, bindings, sv, a0, f0)->0,
                    ));
                }
            }
            f = f + 1;
        }
        proof {
            assert(all_declared(docs, bindings, sv, a + 1) == all_declared(docs, bindings, sv, a as int)
                + doc_declared(docs, bindings, sv, a as int, document.relationship_facts@.len() as int));
        }
        a = a + 1;
    }
    relationships
}

} // verus!
