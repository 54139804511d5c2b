//! Deployment topology: containment between deployment elements and relationships that cross
//! a parent/child boundary.

use vstd::prelude::*;

use crate::diagnostics::{code_of, RuledDiagnostic};
use crate::span::TextSpan;
use crate::symbols::{is_deployment_kind, ReferenceKind, Symbol};
use crate::workspace::index::{
    documents_well_formed, facts_well_formed, find_doc_index, find_document, lemma_find_doc_index, note_at,
    secondary_annotation, WorkspaceBindingTables, WorkspaceSemanticDocumentFacts,
};
use crate::workspace::model::SymbolHandle;
use crate::workspace::references::{site_views, ResolvedSite, SiteEntry};
use crate::workspace::relationships::{endpoint_target, symbol_for_handle, symbol_of};

verus! {

/// Whether a deployment ancestor of symbol `i` of document `doc` has handle `anc`, walking up
/// through deployment-kind parents only.
pub open spec fn deployment_ancestor_from(
    symbols: Seq<Symbol>,
    doc: Seq<char>,
    i: int,
    anc: (Seq<char>, usize),
) -> bool
    decreases i,
{
    if !(0 <= i < symbols.len()) {
        false
    } else {
        match symbols[i].parent {
            None => false,
            Some(p) => if 0 <= p.0 < i && is_deployment_kind(symbols[p.0 as int].kind) {
                (doc, symbols[p.0 as int].id.0) == anc || deployment_ancestor_from(symbols, doc, p.0 as int, anc)
            } else {
                false
            },
        }
    }
}

/// Whether `anc` is a deployment ancestor of `desc`.
pub open spec fn is_deployment_ancestor(
    docs: Seq<&WorkspaceSemanticDocumentFacts>,
    anc: (Seq<char>, usize),
    desc: (Seq<char>, usize),
) -> bool {
    let a = find_doc_index(docs, desc.0);
    a >= 0 && deployment_ancestor_from(docs[a].symbols@, desc.0, desc.1 as int, anc)
}

/// Whether `ancestor` is a deployment ancestor of `descendant`.
pub fn deployment_is_ancestor(
    documents: &[&WorkspaceSemanticDocumentFacts],
    ancestor: &SymbolHandle,
    descendant: &SymbolHandle,
) -> (r: bool)
    requires
        documents_well_formed(documents@),
    ensures
        r == is_deployment_ancestor(documents@, ancestor@, descendant@),
{
    let document = match find_document(documents, &descendant.document) {
        Some(d) => d,
        None => {
            return false;
        },
    };
    proof {
        lemma_find_doc_index(documents@, descendant.document@);
        assert(facts_well_formed(document));
    }
    let ghost symbols = document.symbols@;
    let mut cur: usize = descendant.symbol_id.0;
    if cur >= document.symbols.len() {
        return false;
    }
    loop
        invariant
            symbols == document.symbols@,
            facts_well_formed(document),
            cur < symbols.len(),
            is_deployment_ancestor(documents@, ancestor@, descendant@) == deployment_ancestor_from(
                symbols,
                descendant.document@,
                descendant.symbol_id.0 as int,
                ancestor@,
            ),
            deployment_ancestor_from(symbols, descendant.document@, descendant.symbol_id.0 as int, ancestor@)
                == deployment_ancestor_from(symbols, descendant.document@, cur as int, ancestor@),
        decreases cur,
    {
        let parent = document.symbols[cur].parent;
        assert(symbols[cur as int].parent == parent);
        match parent {
            None => {
                return false;
            },
            Some(p) => {
                let ps = &document.symbols[p.0];
                if !ps.kind.is_deployment() {
                    return false;
                }
                if ps.id.0 == ancestor.symbol_id.0 && descendant.document.same(&ancestor.document) {
                    return true;
                }
                cur = p.0;
            },
        }
    }
}

/// Which endpoint of a relationship contains the other.
#[derive(Debug, Clone, Copy, PartialEq, Eq, Structural)]
pub enum DeploymentContainmentRelation {
    /// The source is an ancestor of the destination.
    SourceAncestor,
    /// The destination is an ancestor of the source.
    DestinationAncestor,
}

/// Whether one endpoint contains the other, and which.
pub fn deployment_containment_relation(
    documents: &[&WorkspaceSemanticDocumentFacts],
    source: &SymbolHandle,
    destination: &SymbolHandle,
) -> (r: Option<DeploymentContainmentRelation>)
    requires
        documents_well_formed(documents@),
    ensures
        r == (if is_deployment_ancestor(documents@, source@, destination@) {
            Some(DeploymentContainmentRelation::SourceAncestor)
        } else if is_deployment_ancestor(documents@, destination@, source@) {
            Some(DeploymentContainmentRelation::DestinationAncestor)
        } else {
            None
        }),
{
    if deployment_is_ancestor(documents, source, destination) {
        Some(DeploymentContainmentRelation::SourceAncestor)
    } else if deployment_is_ancestor(documents, destination, source) {
        Some(DeploymentContainmentRelation::DestinationAncestor)
    } else {
        None
    }
}

/// The report for a relationship in document `doc` between the deployment elements `s` and
/// `t`, one an ancestor of the other: the fixed message, then the ancestor and the descendant
/// as secondary context.
pub open spec fn parent_child_report_ok(
    docs: Seq<&WorkspaceSemanticDocumentFacts>,
    d: RuledDiagnostic,
    doc: Seq<char>,
    s: (Seq<char>, usize),
    t: (Seq<char>, usize),
) -> bool {
    let anc = if is_deployment_ancestor(docs, s, t) {
        s
    } else {
        t
    };
    let desc = if is_deployment_ancestor(docs, s, t) {
        t
    } else {
        s
    };
    &&& d.diagnostic.message@ == "Relationships cannot be added between parents and children"@
    &&& d.diagnostic.annotations@.len() == 2
    &&& (symbol_of(docs, anc) matches Some(x) && note_at(
        d.diagnostic.annotations@[0],
        doc,
        anc.0,
        x.span,
        "ancestor deployment element "@ + x.display_name@ + " is declared here"@,
    ))
    &&& (symbol_of(docs, desc) matches Some(y) && note_at(
        d.diagnostic.annotations@[1],
        doc,
        desc.0,
        y.span,
        "descendant deployment element "@ + y.display_name@ + " is declared here"@,
    ))
}

/// The resolved source endpoint of relationship fact `f` of document `a`.
pub open spec fn violation_source(
    docs: Seq<&WorkspaceSemanticDocumentFacts>,
    tables: &WorkspaceBindingTables,
    sites: Seq<SiteEntry>,
    a: int,
    f: int,
) -> Option<(Seq<char>, usize)> {
    let fact = docs[a].relationship_facts@[f];
    endpoint_target(
        docs[a],
        fact.source,
        fact.span,
        ReferenceKind::DeploymentRelationshipSource,
        ReferenceKind::RelationshipSource,
        tables,
        sites,
    )
}

/// The resolved destination endpoint of relationship fact `f` of document `a`.
pub open spec fn violation_destination(
    docs: Seq<&WorkspaceSemanticDocumentFacts>,
    tables: &WorkspaceBindingTables,
    sites: Seq<SiteEntry>,
    a: int,
    f: int,
) -> Option<(Seq<char>, usize)> {
    let fact = docs[a].relationship_facts@[f];
    endpoint_target(
        docs[a],
        Some(fact.destination),
        fact.span,
        ReferenceKind::DeploymentRelationshipDestination,
        ReferenceKind::RelationshipDestination,
        tables,
        sites,
    )
}

/// The positions (document, fact) of the violating relationships among the first `f` facts of
/// document `a`.
pub open spec fn doc_violation_positions(
    docs: Seq<&WorkspaceSemanticDocumentFacts>,
    tables: &WorkspaceBindingTables,
    sites: Seq<SiteEntry>,
    a: int,
    f: int,
) -> Seq<(int, int)>
    decreases f,
{
    if f <= 0 || docs[a].has_syntax_errors {
        Seq::empty()
    } else {
        let rest = doc_violation_positions(docs, tables, sites, a, f - 1);
        if parent_child_violation(docs, tables, sites, a, f - 1) {
            rest.push((a, f - 1))
        } else {
            rest
        }
    }
}

/// The positions of the violating relationships of the first `a` documents.
pub open spec fn all_violation_positions(
    docs: Seq<&WorkspaceSemanticDocumentFacts>,
    tables: &WorkspaceBindingTables,
    sites: Seq<SiteEntry>,
    a: int,
) -> Seq<(int, int)>
    decreases a,
{
    if a <= 0 {
        Seq::empty()
    } else {
        all_violation_positions(docs, tables, sites, a - 1) + doc_violation_positions(
            docs,
            tables,
            sites,
            a - 1,
            docs[a - 1].relationship_facts@.len() as int,
        )
    }
}

/// `r` holds the parent/child report of each violating relationship, in document and fact order.
pub open spec fn violation_reports_ok(
    docs: Seq<&WorkspaceSemanticDocumentFacts>,
    tables: &WorkspaceBindingTables,
    sites: Seq<SiteEntry>,
    r: Seq<RuledDiagnostic>,
) -> bool {
    let ps = all_violation_positions(docs, tables, sites, docs.len() as int);
    &&& r.len() == ps.len()
    &&& forall|m: int|
        0 <= m < r.len() ==> parent_child_report_ok(
            docs,
            #[trigger] r[m],
            docs[ps[m].0].document_id@,
            violation_source(docs, tables, sites, ps[m].0, ps[m].1)->0,
            violation_destination(docs, tables, sites, ps[m].0, ps[m].1)->0,
        )
}

/// Whether relationship fact `f` of document `a` joins a deployment element to one of its own
/// deployment ancestors or descendants (endpoints resolved deployment role first).
pub open spec fn parent_child_violation(
    docs: Seq<&WorkspaceSemanticDocumentFacts>,
    tables: &WorkspaceBindingTables,
    sites: Seq<SiteEntry>,
    a: int,
    f: int,
) -> bool {
    let document = docs[a];
    let fact = document.relationship_facts@[f];
    let s = endpoint_target(
        document,
        fact.source,
        fact.span,
        ReferenceKind::DeploymentRelationshipSource,
        ReferenceKind::RelationshipSource,
        tables,
        sites,
    );
    let d = endpoint_target(
        document,
        Some(fact.destination),
        fact.span,
        ReferenceKind::DeploymentRelationshipDestination,
        ReferenceKind::RelationshipDestination,
        tables,
        sites,
    );
    &&& s is Some
    &&& d is Some
    &&& symbol_of(docs, s->0) matches Some(ss) && is_deployment_kind(ss.kind)
    &&& symbol_of(docs, d->0) matches Some(ds) && is_deployment_kind(ds.kind)
    &&& (is_deployment_ancestor(docs, s->0, d->0) || is_deployment_ancestor(docs, d->0, s->0))
}

/// The spans of the violating relationships among the first `f` facts of document `a`.
pub open spec fn doc_violations(
    docs: Seq<&WorkspaceSemanticDocumentFacts>,
    tables: &WorkspaceBindingTables,
    sites: Seq<SiteEntry>,
    a: int,
    f: int,
) -> Seq<(Seq<char>, TextSpan)>
    decreases f,
{
    if f <= 0 || docs[a].has_syntax_errors {
        Seq::empty()
    } else {
        let rest = doc_violations(docs, tables, sites, a, f - 1);
        if parent_child_violation(docs, tables, sites, a, f - 1) {
            rest.push((docs[a].document_id@, docs[a].relationship_facts@[f - 1].span))
        } else {
            rest
        }
    }
}

/// The violating relationships of the first `a` documents.
pub open spec fn all_violations(
    docs: Seq<&WorkspaceSemanticDocumentFacts>,
    tables: &WorkspaceBindingTables,
    sites: Seq<SiteEntry>,
    a: int,
) -> Seq<(Seq<char>, TextSpan)>
    decreases a,
{
    if a <= 0 {
        Seq::empty()
    } else {
        all_violations(docs, tables, sites, a - 1) + doc_violations(
            docs,
            tables,
            sites,
            a - 1,
            docs[a - 1].relationship_facts@.len() as int,
        )
    }
}

/// The document and span a diagnostic reports.
pub open spec fn diagnostic_site(d: RuledDiagnostic) -> (Seq<char>, TextSpan) {
    (
        match d.diagnostic.document {
            Some(x) => x@,
            None => Seq::empty(),
        },
        d.diagnostic.span,
    )
}

/// The documents and spans a list of diagnostics reports.
pub open spec fn diagnostic_sites(s: Seq<RuledDiagnostic>) -> Seq<(Seq<char>, TextSpan)> {
    s.map_values(|d: RuledDiagnostic| diagnostic_site(d))
}

/// Reports each relationship between a deployment element and one of its deployment ancestors
/// or descendants, with both elements as secondary context.
pub fn deployment_parent_child_relationship_diagnostics(
    documents: &[&WorkspaceSemanticDocumentFacts],
    bindings: &WorkspaceBindingTables,
    sites: &Vec<ResolvedSite>,
) -> (r: Vec<RuledDiagnostic>)
    requires
        documents_well_formed(documents@),
    ensures
        diagnostic_sites(r@) == all_violations(documents@, bindings, site_views(sites@), documents@.len() as int),
        forall|m: int|
            0 <= m < r@.len() ==> code_of(#[trigger] r@[m]) == "semantic.deployment-parent-child-relationship"@,
        violation_reports_ok(documents@, bindings, site_views(sites@), r@),
{
    let ghost docs = documents@;
    let ghost sv = site_views(sites@);
    let mut diagnostics: Vec<RuledDiagnostic> = Vec::new();
    let mut a: usize = 0;
    while a < documents.len()
        invariant
            docs == documents@,
            sv == site_views(sites@),
            documents_well_formed(docs),
            a <= docs.len(),
            diagnostic_sites(diagnostics@) == all_violations(docs, bindings, sv, a as int),
            forall|m: int|
                0 <= m < diagnostics@.len() ==> code_of(#[trigger] diagnostics@[m])
                    == "semantic.deployment-parent-child-relationship"@,
            diagnostics@.len() == all_violation_positions(docs, bindings, sv, a as int).len(),
            forall|m: int|
                0 <= m < diagnostics@.len() ==> parent_child_report_ok(
                    docs,
                    #[trigger] diagnostics@[m],
                    docs[all_violation_positions(docs, bindings, sv, a as int)[m].0].document_id@,
                    violation_source(docs, bindings, sv, all_violation_positions(docs, bindings, sv, a as int)[m].0, all_violation_positions(docs, bindings, sv, a as int)[m].1)->0,
                    violation_destination(docs, bindings, sv, all_violation_positions(docs, bindings, sv, a as int)[m].0, all_violation_positions(docs, bindings, sv, a as int)[m].1)->0,
                ),
        decreases docs.len() - a,
    {
        let document = documents[a];
        assert(facts_well_formed(document));
        let mut f: usize = 0;
        if document.has_syntax_errors {
            f = document.relationship_facts.len();
        }
        while f < document.relationship_facts.len() && !document.has_syntax_errors
            invariant
                docs == documents@,
                sv == site_views(sites@),
                documents_well_formed(docs),
                0 <= a < docs.len(),
                document == docs[a as int],
                facts_well_formed(document),
                f <= document.relationship_facts@.len(),
                diagnostic_sites(diagnostics@) == all_violations(docs, bindings, sv, a as int) + doc_violations(
                    docs,
                    bindings,
                    sv,
                    a as int,
                    f as int,
                ),
                forall|m: int|
                    0 <= m < diagnostics@.len() ==> code_of(#[trigger] diagnostics@[m])
                        == "semantic.deployment-parent-child-relationship"@,
                diagnostics@.len() == all_violation_positions(docs, bindings, sv, a as int).len()
                    + doc_violation_positions(docs, bindings, sv, a as int, f as int).len(),
                forall|m: int|
                    0 <= m < diagnostics@.len() ==> {
                        let ps = all_violation_positions(docs, bindings, sv, a as int) + doc_violation_positions(
                            docs,
                            bindings,
                            sv,
                            a as int,
                            f as int,
                        );
                        parent_child_report_ok(
                            docs,
                            #[trigger] diagnostics@[m],
                            docs[ps[m].0].document_id@,
                            violation_source(docs, bindings, sv, ps[m].0, ps[m].1)->0,
                            violation_destination(docs, bindings, sv, ps[m].0, ps[m].1)->0,
                        )
                    },
            decreases document.relationship_facts.len() - f,
        {
            let fact = &document.relationship_facts[f];
            assert(fact.span.start_byte <= fact.span.end_byte);
            let ghost before = diagnostics@;
            let found = report_parent_child(documents, document, fact, bindings, sites, &mut diagnostics);
            proof {
                let a0 = a as int;
                let f0 = f as int;
                assert(document.relationship_facts@[f0] == *fact);
                let ps0 = all_violation_positions(docs, bindings, sv, a0) + doc_violation_positions(docs, bindings, sv, a0, f0);
                let ps1 = all_violation_positions(docs, bindings, sv, a0) + doc_violation_positions(docs, bindings, sv, a0, f0 + 1);
                if found {
                    assert(ps1 =~= ps0.push((a0, f0)));
                } else {
                    assert(ps1 =~= ps0);
                }
                assert forall|m: int| 0 <= m < diagnostics@.len() implies parent_child_report_ok(
                    docs,
                    #[trigger] diagnostics@[m],
                    docs[ps1[m].0].document_id@,
                    violation_source(docs, bindings, sv, ps1[m].0, ps1[m].1)->0,
                    violation_destination(docs, bindings, sv, ps1[m].0, ps1[m].1)->0,
                ) by {
                    if m < before.len() {
                        assert(diagnostics@[m] == before[m]);
                        assert(ps1[m] == ps0[m]);
                    }
                }
                if found {
                    assert(diagnostic_sites(diagnostics@) =~= diagnostic_sites(before).push(
                        (docs[a0].document_id@, fact.span),
                    ));
                    assert(all_violations(docs, bindings, sv, a0) + doc_violations(docs, bindings, sv, a0, f0 + 1)
                        =~= (all_violations(docs, bindings, sv, a0) + doc_violations(docs, bindings, sv, a0, f0)).push(
                        (docs[a0].document_id@, fact.span),
                    ));
                    assert forall|m: int| 0 <= m < diagnostics@.len() implies code_of(#[trigger] diagnostics@[m])
                        == "semantic.deployment-parent-child-relationship"@ by {
                        if m < before.len() {
                            assert(diagnostics@[m] == before[m]);
                        }
                    }
                }
            }
            f = f + 1;
        }
        proof {
            assert(all_violations(docs, bindings, sv, a + 1) == all_violations(docs, bindings, sv, a as int)
                + doc_violations(docs, bindings, sv, a as int, document.relationship_facts@.len() as int));
            assert(all_violation_positions(docs, bindings, sv, a + 1) == all_violation_positions(docs, bindings, sv, a as int)
                + doc_violation_positions(docs, bindings, sv, a as int, document.relationship_facts@.len() as int));
        }
        a = a + 1;
    }
    diagnostics
}

/// Checks one relationship fact and reports it when it crosses a deployment parent/child
/// boundary; returns whether it did.
fn report_parent_child(
    documents: &[&WorkspaceSemanticDocumentFacts],
    document: &WorkspaceSemanticDocumentFacts,
    fact: &crate::semantic::RelationshipFact,
    bindings: &WorkspaceBindingTables,
    sites: &Vec<ResolvedSite>,
    diagnostics: &mut Vec<RuledDiagnostic>,
) -> (found: bool)
    requires
        documents_well_formed(documents@),
        exists|a: int, f: int|
            0 <= a < documents@.len() && documents@[a] == document && 0 <= f
                < document.relationship_facts@.len() && document.relationship_facts@[f] == *fact,
        facts_well_formed(document),
        fact.span.start_byte <= fact.span.end_byte,
    ensures
        found == ({
            let s = endpoint_target(
                document,
                fact.source,
                fact.span,
                ReferenceKind::DeploymentRelationshipSource,
                ReferenceKind::RelationshipSource,
                bindings,
                site_views(sites@),
            );
            let d = endpoint_target(
                document,
                Some(fact.destination),
                fact.span,
                ReferenceKind::DeploymentRelationshipDestination,
                ReferenceKind::RelationshipDestination,
                bindings,
                site_views(sites@),
            );
            &&& s is Some
            &&& d is Some
            &&& symbol_of(documents@, s->0) matches Some(ss) && is_deployment_kind(ss.kind)
            &&& symbol_of(documents@, d->0) matches Some(ds) && is_deployment_kind(ds.kind)
            &&& (is_deployment_ancestor(documents@, s->0, d->0) || is_deployment_ancestor(
                documents@,
                d->0,
                s->0,
            ))
        }),
        found ==> final(diagnostics)@ == old(diagnostics)@.push(final(diagnostics)@.last()) && diagnostic_site(
            final(diagnostics)@.last(),
        ) == (document.document_id@, fact.span) && code_of(final(diagnostics)@.last())
            == "semantic.deployment-parent-child-relationship"@,
        found ==> parent_child_report_ok(
            documents@,
            final(diagnostics)@.last(),
            document.document_id@,
            endpoint_target(
                document,
                fact.source,
                fact.span,
                ReferenceKind::DeploymentRelationshipSource,
                ReferenceKind::RelationshipSource,
                bindings,
                site_views(sites@),
            )->0,
            endpoint_target(
                document,
                Some(fact.destination),
                fact.span,
                ReferenceKind::DeploymentRelationshipDestination,
                ReferenceKind::RelationshipDestination,
                bindings,
                site_views(sites@),
            )->0,
        ),
        !found ==> final(diagnostics)@ == old(diagnostics)@,
{
    let source = crate::workspace::relationships::resolved_declared_relationship_endpoint(
        document,
        match &fact.source {
            Some(v) => Some(v),
            None => None,
        },
        fact.span,
        ReferenceKind::DeploymentRelationshipSource,
        ReferenceKind::RelationshipSource,
        bindings,
        sites,
    );
    let source = match source {
        Some(s) => s,
        None => {
            return false;
        },
    };
    let destination = match crate::workspace::relationships::resolved_declared_relationship_endpoint(
        document,
        Some(&fact.destination),
        fact.span,
        ReferenceKind::DeploymentRelationshipDestination,
        ReferenceKind::RelationshipDestination,
        bindings,
        sites,
    ) {
        Some(d) => d,
        None => {
            return false;
        },
    };
    let source_symbol = match symbol_for_handle(documents, &source) {
        Some(s) => s,
        None => {
            return false;
        },
    };
    let destination_symbol = match symbol_for_handle(documents, &destination) {
        Some(s) => s,
        None => {
            return false;
        },
    };
    if !source_symbol.kind.is_deployment() || !destination_symbol.kind.is_deployment() {
        return false;
    }
    let relation = match deployment_containment_relation(documents, &source, &destination) {
        Some(r) => r,
        None => {
            return false;
        },
    };
    let mut diagnostic = RuledDiagnostic::deployment_parent_child_relationship(&document.document_id, fact.span);
    let (ancestor_handle, ancestor_symbol, descendant_handle, descendant_symbol) = match relation {
        DeploymentContainmentRelation::SourceAncestor => (&source, source_symbol, &destination, destination_symbol),
        DeploymentContainmentRelation::DestinationAncestor => (
            &destination,
            destination_symbol,
            &source,
            source_symbol,
        ),
    };
    let ancestor_message = crate::text::cat3(
        "ancestor deployment element ",
        ancestor_symbol.display_name.as_str(),
        " is declared here",
    );
    diagnostic.annotate(
        secondary_annotation(&document.document_id, &ancestor_handle.document, ancestor_symbol.span, ancestor_message),
    );
    let descendant_message = crate::text::cat3(
        "descendant deployment element ",
        descendant_symbol.display_name.as_str(),
        " is declared here",
    );
    diagnostic.annotate(
        secondary_annotation(
            &document.document_id,
            &descendant_handle.document,
            descendant_symbol.span,
            descendant_message,
        ),
    );
    diagnostics.push(diagnostic);
    true
}

} // verus!
