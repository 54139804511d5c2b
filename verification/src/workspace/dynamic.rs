//! Dynamic views: resolving each step once, then checking scope redundancy and that every
//! step follows a declared relationship (or answers one already shown).

use vstd::prelude::*;

use crate::diagnostics::{code_of, Annotation, RuledDiagnostic};
use crate::semantic::{DynamicViewStepFact, ViewFact, ViewKind};
use crate::snapshot::DocumentId;
use crate::span::TextSpan;
use crate::symbols::ReferenceKind;
use crate::workspace::index::{secondary_annotation, WorkspaceSemanticDocumentFacts};
use crate::workspace::model::SymbolHandle;
use crate::workspace::references::{site_views, ResolvedSite, SiteEntry};
use crate::workspace::relationships::{
    clone_declared, declared_view, declared_views, resolved_reference_target, site_target, symbol_for_handle,
    symbol_of, DeclaredRelationship, DeclaredView,
};
use crate::workspace::views::targeted_sites;

verus! {

/// `d` reports, under the scope-redundancy code, that its target is already the view's scope.
pub open spec fn scope_redundancy_report(d: RuledDiagnostic) -> bool {
    &&& code_of(d) == "semantic.dynamic-view-scope-redundancy"@
    &&& (d.diagnostic.target_text matches Some(t) && d.diagnostic.message@ == t@
        + " is already the scope of this view and cannot be added to it"@)
}


/// Whether a declared technology satisfies an expected one (no expectation always does).
pub open spec fn tech_matches(declared: Option<Seq<char>>, expected: Option<Seq<char>>) -> bool {
    match expected {
        None => true,
        Some(e) => declared == Some(e),
    }
}

/// Decides `tech_matches`.
pub fn relationship_technology_matches(declared: Option<&str>, expected: Option<&str>) -> (r: bool)
    ensures
        r == tech_matches(
            match declared {
                Some(d) => Some(d@),
                None => None,
            },
            match expected {
                Some(e) => Some(e@),
                None => None,
            },
        ),
{
    match expected {
        None => true,
        Some(e) => match declared {
            Some(d) => crate::text::str_eq(d, e),
            None => false,
        },
    }
}

/// An optional string by its view.
pub open spec fn opt_str(o: Option<String>) -> Option<Seq<char>> {
    match o {
        Some(s) => Some(s@),
        None => None,
    }
}

fn opt_as_str(o: &Option<String>) -> (r: Option<&str>)
    ensures
        match r {
            Some(s) => opt_str(*o) == Some(s@),
            None => o is None,
        },
{
    match o {
        Some(s) => Some(s.as_str()),
        None => None,
    }
}

/// Index of the first declared relationship from `s` to `d` whose technology satisfies `tech`.
pub open spec fn first_matching(
    ds: Seq<DeclaredView>,
    s: (Seq<char>, usize),
    d: (Seq<char>, usize),
    tech: Option<Seq<char>>,
) -> int
    decreases ds.len(),
{
    if ds.len() == 0 {
        -1
    } else if ds[0].3 == s && ds[0].4 == d && tech_matches(ds[0].5, tech) {
        0
    } else {
        let r = first_matching(ds.drop_first(), s, d, tech);
        if r < 0 {
            -1
        } else {
            r + 1
        }
    }
}

proof fn lemma_first_matching_bounds(ds: Seq<DeclaredView>, s: (Seq<char>, usize), d: (Seq<char>, usize), tech: Option<Seq<char>>)
    ensures
        -1 <= first_matching(ds, s, d, tech) < ds.len(),
    decreases ds.len(),
{
    if ds.len() > 0 {
        lemma_first_matching_bounds(ds.drop_first(), s, d, tech);
    }
}

/// The first declared relationship from `source` to `destination` whose technology satisfies
/// `technology`.
pub fn matching_declared_relationship<'a>(
    source: &SymbolHandle,
    destination: &SymbolHandle,
    technology: Option<&str>,
    declared: &'a Vec<DeclaredRelationship>,
) -> (r: Option<&'a DeclaredRelationship>)
    ensures
        match r {
            Some(x) => {
                let i = first_matching(
                    declared_views(declared@),
                    source@,
                    destination@,
                    match technology {
                        Some(t) => Some(t@),
                        None => None,
                    },
                );
                i >= 0 && declared_view(*x) == declared_views(declared@)[i]
            },
            None => first_matching(
                declared_views(declared@),
                source@,
                destination@,
                match technology {
                    Some(t) => Some(t@),
                    None => None,
                },
            ) < 0,
        },
{
    let ghost ds = declared_views(declared@);
    let ghost tech = match technology {
        Some(t) => Some(t@),
        None => None,
    };
    let mut i: usize = 0;
    assert(ds.skip(0) =~= ds);
    while i < declared.len()
        invariant
            i <= declared@.len(),
            ds == declared_views(declared@),
            tech == (match technology {
                Some(t) => Some(t@),
                None => None,
            }),
            first_matching(ds, source@, destination@, tech) == (if first_matching(
                ds.skip(i as int),
                source@,
                destination@,
                tech,
            ) < 0 {
                -1
            } else {
                first_matching(ds.skip(i as int), source@, destination@, tech) + i
            }),
        decreases declared.len() - i,
    {
        assert(ds.skip(i as int)[0] == declared_view(declared@[i as int]));
        assert(ds.skip(i as int).drop_first() =~= ds.skip(i + 1));
        let rel = &declared[i];
        let same_source = rel.source.same(source);
        let same_destination = rel.destination.same(destination);
        let declared_tech = opt_as_str(&rel.technology);
        let tech_ok = relationship_technology_matches(declared_tech, technology);
        proof {
            let e = ds.skip(i as int)[0];
            assert(e.3 == rel.source@);
            assert(e.4 == rel.destination@);
            assert(e.5 == opt_str(rel.technology));
            assert(same_source == (e.3 == source@));
            assert(same_destination == (e.4 == destination@));
            assert(tech_ok == tech_matches(e.5, tech));
        }
        if same_source && same_destination && tech_ok {
            assert(first_matching(ds.skip(i as int), source@, destination@, tech) == 0);
            return Some(rel);
        }
        i = i + 1;
    }
    assert(ds.skip(i as int).len() == 0);
    None
}

/// Index of the first declared relationship whose own symbol is `h`.
pub open spec fn first_with_handle(ds: Seq<DeclaredView>, h: (Seq<char>, usize)) -> int
    decreases ds.len(),
{
    if ds.len() == 0 {
        -1
    } else if ds[0].0 == Some(h) {
        0
    } else {
        let r = first_with_handle(ds.drop_first(), h);
        if r < 0 {
            -1
        } else {
            r + 1
        }
    }
}

/// The declared relationship whose own symbol is `handle`.
pub fn declared_relationship_for_handle<'a>(
    handle: &SymbolHandle,
    declared: &'a Vec<DeclaredRelationship>,
) -> (r: Option<&'a DeclaredRelationship>)
    ensures
        match r {
            Some(x) => first_with_handle(declared_views(declared@), handle@) >= 0 && declared_view(*x)
                == declared_views(declared@)[first_with_handle(declared_views(declared@), handle@)],
            None => first_with_handle(declared_views(declared@), handle@) < 0,
        },
{
    let ghost ds = declared_views(declared@);
    let mut i: usize = 0;
    assert(ds.skip(0) =~= ds);
    while i < declared.len()
        invariant
            i <= declared@.len(),
            ds == declared_views(declared@),
            first_with_handle(ds, handle@) == (if first_with_handle(ds.skip(i as int), handle@) < 0 {
                -1
            } else {
                first_with_handle(ds.skip(i as int), handle@) + i
            }),
        decreases declared.len() - i,
    {
        assert(ds.skip(i as int)[0] == declared_view(declared@[i as int]));
        assert(ds.skip(i as int).drop_first() =~= ds.skip(i + 1));
        let rel = &declared[i];
        let found = match &rel.handle {
            Some(h) => h.same(handle),
            None => false,
        };
        if found {
            return Some(rel);
        }
        i = i + 1;
    }
    assert(ds.skip(i as int).len() == 0);
    None
}

/// Whether the reverse of `source -> destination` is declared and already shown in the view.
pub open spec fn response_in_view(
    ds: Seq<DeclaredView>,
    s: (Seq<char>, usize),
    d: (Seq<char>, usize),
    tech: Option<Seq<char>>,
    seen: Set<(Seq<char>, TextSpan)>,
) -> bool {
    exists|i: int|
        0 <= i < ds.len() && (#[trigger] ds[i]).3 == d && ds[i].4 == s && tech_matches(ds[i].5, tech)
            && seen.contains((ds[i].1, ds[i].2))
}

/// The locations of a list of shown relationships, as a set.
pub open spec fn location_set(seen: Seq<(DocumentId, TextSpan)>) -> Set<(Seq<char>, TextSpan)> {
    Set::new(|l: (Seq<char>, TextSpan)| exists|i: int| 0 <= i < seen.len() && (#[trigger] seen[i]).0@ == l.0 && seen[i].1 == l.1)
}

fn location_seen(seen: &Vec<(DocumentId, TextSpan)>, document: &DocumentId, span: TextSpan) -> (r: bool)
    ensures
        r == location_set(seen@).contains((document@, span)),
{
    let mut i: usize = 0;
    while i < seen.len()
        invariant
            i <= seen@.len(),
            forall|j: int| 0 <= j < i ==> !((#[trigger] seen@[j]).0@ == document@ && seen@[j].1 == span),
        decreases seen.len() - i,
    {
        if seen[i].0.same(document) && seen[i].1 == span {
            assert(location_set(seen@).contains((document@, span)));
            return true;
        }
        i = i + 1;
    }
    false
}

/// Decides `response_in_view`.
pub fn response_relationship_is_in_view(
    source: &SymbolHandle,
    destination: &SymbolHandle,
    technology: Option<&str>,
    declared: &Vec<DeclaredRelationship>,
    seen: &Vec<(DocumentId, TextSpan)>,
) -> (r: bool)
    ensures
        r == response_in_view(
            declared_views(declared@),
            source@,
            destination@,
            match technology {
                Some(t) => Some(t@),
                None => None,
            },
            location_set(seen@),
        ),
{
    let ghost ds = declared_views(declared@);
    let ghost tech = match technology {
        Some(t) => Some(t@),
        None => None,
    };
    let mut i: usize = 0;
    while i < declared.len()
        invariant
            i <= declared@.len(),
            ds == declared_views(declared@),
            tech == (match technology {
                Some(t) => Some(t@),
                None => None,
            }),
            forall|j: int|
                0 <= j < i ==> !((#[trigger] ds[j]).3 == destination@ && ds[j].4 == source@ && tech_matches(
                    ds[j].5,
                    tech,
                ) && location_set(seen@).contains((ds[j].1, ds[j].2))),
        decreases declared.len() - i,
    {
        let rel = &declared[i];
        assert(ds[i as int] == declared_view(*rel));
        if rel.source.same(destination) && rel.destination.same(source) && relationship_technology_matches(
            opt_as_str(&rel.technology),
            technology,
        ) && location_seen(seen, &rel.document, rel.span) {
            return true;
        }
        i = i + 1;
    }
    false
}

/// One dynamic-view step with its endpoints resolved, by views.
pub enum StepView {
    /// A step spelled with explicit endpoints.
    Explicit {
        span: TextSpan,
        source: (Seq<char>, usize),
        destination: (Seq<char>, usize),
        source_name: Seq<char>,
        destination_name: Seq<char>,
        technology: Option<Seq<char>>,
    },
    /// A step naming a declared relationship.
    Named { span: TextSpan, relationship: DeclaredView },
}

/// How one step of a dynamic view in document `a` resolves, if it does.
pub open spec fn step_spec(
    docs: Seq<&WorkspaceSemanticDocumentFacts>,
    sites: Seq<SiteEntry>,
    ds: Seq<DeclaredView>,
    a: int,
    step: DynamicViewStepFact,
) -> Option<StepView> {
    let doc = docs[a].document_id@;
    match step {
        DynamicViewStepFact::Relationship(st) => match (
            site_target(sites, doc, ReferenceKind::RelationshipSource, st.source.span),
            site_target(sites, doc, ReferenceKind::RelationshipDestination, st.destination.span),
        ) {
            (Some(s), Some(d)) => match (symbol_of(docs, s), symbol_of(docs, d)) {
                (Some(ss), Some(dd)) => Some(
                    StepView::Explicit {
                        span: st.span,
                        source: s,
                        destination: d,
                        source_name: ss.display_name@,
                        destination_name: dd.display_name@,
                        technology: match st.technology {
                            Some(t) => Some(t.normalized_text@),
                            None => None,
                        },
                    },
                ),
                _ => None,
            },
            _ => None,
        },
        DynamicViewStepFact::RelationshipReference(st) => match site_target(
            sites,
            doc,
            ReferenceKind::DynamicRelationshipReference,
            st.relationship.span,
        ) {
            Some(h) => {
                let i = first_with_handle(ds, h);
                if i >= 0 {
                    Some(StepView::Named { span: st.span, relationship: ds[i] })
                } else {
                    None
                }
            },
            None => None,
        },
    }
}

/// One resolved dynamic-view step.
pub enum ResolvedDynamicStep {
    /// A step spelled with explicit endpoints.
    Explicit {
        /// The step's span.
        span: TextSpan,
        /// The source element.
        source: SymbolHandle,
        /// The destination element.
        destination: SymbolHandle,
        /// The source's display name.
        source_name: String,
        /// The destination's display name.
        destination_name: String,
        /// The step's technology, normalized.
        technology: Option<String>,
    },
    /// A step naming a declared relationship.
    Named {
        /// The step's span.
        span: TextSpan,
        /// The named relationship.
        relationship: DeclaredRelationship,
    },
}

/// A resolved step by views.
pub open spec fn step_view(s: ResolvedDynamicStep) -> StepView {
    match s {
        ResolvedDynamicStep::Explicit { span, source, destination, source_name, destination_name, technology } =>
            StepView::Explicit {
            span,
            source: source@,
            destination: destination@,
            source_name: source_name@,
            destination_name: destination_name@,
            technology: opt_str(technology),
        },
        ResolvedDynamicStep::Named { span, relationship } => StepView::Named {
            span,
            relationship: declared_view(relationship),
        },
    }
}

/// Resolves one dynamic-view step.
pub fn resolve_dynamic_step(
    documents: &[&WorkspaceSemanticDocumentFacts],
    a: usize,
    step: &DynamicViewStepFact,
    sites: &Vec<ResolvedSite>,
    declared: &Vec<DeclaredRelationship>,
) -> (r: Option<ResolvedDynamicStep>)
    requires
        a < documents@.len(),
    ensures
        match r {
            Some(s) => step_spec(documents@, site_views(sites@), declared_views(declared@), a as int, *step)
                == Some(step_view(s)),
            None => step_spec(documents@, site_views(sites@), declared_views(declared@), a as int, *step) is None,
        },
{
    let document = documents[a];
    match step {
        DynamicViewStepFact::Relationship(st) => {
            let source = match resolved_reference_target(
                &document.document_id,
                ReferenceKind::RelationshipSource,
                st.source.span,
                sites,
            ) {
                Some(s) => s,
                None => {
                    return None;
                },
            };
            let destination = match resolved_reference_target(
                &document.document_id,
                ReferenceKind::RelationshipDestination,
                st.destination.span,
                sites,
            ) {
                Some(d) => d,
                None => {
                    return None;
                },
            };
            let source_name = match symbol_for_handle(documents, &source) {
                Some(s) => s.display_name.clone(),
                None => {
                    return None;
                },
            };
            let destination_name = match symbol_for_handle(documents, &destination) {
                Some(s) => s.display_name.clone(),
                None => {
                    return None;
                },
            };
            let technology = match &st.technology {
                Some(t) => Some(t.normalized_text.clone()),
                None => None,
            };
            Some(
                ResolvedDynamicStep::Explicit {
                    span: st.span,
                    source,
                    destination,
                    source_name,
                    destination_name,
                    technology,
                },
            )
        },
        DynamicViewStepFact::RelationshipReference(st) => {
            let handle = match resolved_reference_target(
                &document.document_id,
                ReferenceKind::DynamicRelationshipReference,
                st.relationship.span,
                sites,
            ) {
                Some(h) => h,
                None => {
                    return None;
                },
            };
            match declared_relationship_for_handle(&handle, declared) {
                Some(rel) => Some(ResolvedDynamicStep::Named { span: st.span, relationship: clone_declared(rel) }),
                None => None,
            }
        },
    }
}

/// The resolved scope of a dynamic view: its span, target, and the target's display name.
pub open spec fn scope_spec(
    docs: Seq<&WorkspaceSemanticDocumentFacts>,
    sites: Seq<SiteEntry>,
    a: int,
    view: ViewFact,
) -> Option<(TextSpan, (Seq<char>, usize), Seq<char>)> {
    match view.scope {
        None => None,
        Some(scope) => match site_target(sites, docs[a].document_id@, ReferenceKind::ViewScope, scope.span) {
            None => None,
            Some(h) => match symbol_of(docs, h) {
                None => None,
                Some(s) => Some((scope.span, h, s.display_name@)),
            },
        },
    }
}

/// Resolves the scope of a dynamic view.
pub fn resolve_dynamic_scope(
    documents: &[&WorkspaceSemanticDocumentFacts],
    a: usize,
    view: &ViewFact,
    sites: &Vec<ResolvedSite>,
) -> (r: Option<(TextSpan, SymbolHandle, String)>)
    requires
        a < documents@.len(),
    ensures
        match r {
            Some(x) => scope_spec(documents@, site_views(sites@), a as int, *view) == Some((x.0, x.1@, x.2@)),
            None => scope_spec(documents@, site_views(sites@), a as int, *view) is None,
        },
{
    let scope = match &view.scope {
        Some(s) => s,
        None => {
            return None;
        },
    };
    let handle = match resolved_reference_target(&documents[a].document_id, ReferenceKind::ViewScope, scope.span, sites) {
        Some(h) => h,
        None => {
            return None;
        },
    };
    match symbol_for_handle(documents, &handle) {
        Some(symbol) => Some((scope.span, handle, symbol.display_name.clone())),
        None => None,
    }
}


/// The span of a resolved step.
pub open spec fn step_span(s: StepView) -> TextSpan {
    match s {
        StepView::Explicit { span, .. } => span,
        StepView::Named { span, .. } => span,
    }
}

/// Whether a resolved step re-adds the view's scope element.
pub open spec fn step_touches(s: StepView, scope: (Seq<char>, usize)) -> bool {
    match s {
        StepView::Explicit { source, destination, .. } => source == scope || destination == scope,
        StepView::Named { relationship, .. } => relationship.3 == scope || relationship.4 == scope,
    }
}

/// The scope-redundancy reports among the first `n` steps of a dynamic view of document `a`.
pub open spec fn scope_reports(
    docs: Seq<&WorkspaceSemanticDocumentFacts>,
    sites: Seq<SiteEntry>,
    ds: Seq<DeclaredView>,
    a: int,
    view: ViewFact,
    n: int,
) -> Seq<(Seq<char>, TextSpan, Seq<char>)>
    decreases n,
{
    if n <= 0 || view.kind != ViewKind::Dynamic {
        Seq::empty()
    } else {
        match scope_spec(docs, sites, a, view) {
            None => Seq::empty(),
            Some(scope) => {
                let rest = scope_reports(docs, sites, ds, a, view, n - 1);
                match step_spec(docs, sites, ds, a, view.dynamic_steps@[n - 1]) {
                    Some(st) => if step_touches(st, scope.1) {
                        rest.push((docs[a].document_id@, step_span(st), scope.2))
                    } else {
                        rest
                    },
                    None => rest,
                }
            },
        }
    }
}

/// The scope-redundancy reports of the first `n` views of document `a`.
pub open spec fn doc_scope_reports(
    docs: Seq<&WorkspaceSemanticDocumentFacts>,
    sites: Seq<SiteEntry>,
    ds: Seq<DeclaredView>,
    a: int,
    n: int,
) -> Seq<(Seq<char>, TextSpan, Seq<char>)>
    decreases n,
{
    if n <= 0 || docs[a].has_syntax_errors {
        Seq::empty()
    } else {
        let view = docs[a].view_facts@[n - 1];
        doc_scope_reports(docs, sites, ds, a, n - 1) + scope_reports(
            docs,
            sites,
            ds,
            a,
            view,
            view.dynamic_steps@.len() as int,
        )
    }
}

/// The scope-redundancy reports of the first `a` documents.
pub open spec fn all_scope_reports(
    docs: Seq<&WorkspaceSemanticDocumentFacts>,
    sites: Seq<SiteEntry>,
    ds: Seq<DeclaredView>,
    a: int,
) -> Seq<(Seq<char>, TextSpan, Seq<char>)>
    decreases a,
{
    if a <= 0 {
        Seq::empty()
    } else {
        all_scope_reports(docs, sites, ds, a - 1) + doc_scope_reports(
            docs,
            sites,
            ds,
            a - 1,
            docs[a - 1].view_facts@.len() as int,
        )
    }
}

/// What an annotation says, by views: the other document it points into, its span, its message.
pub type NoteView = (Option<Seq<char>>, TextSpan, Option<Seq<char>>);

/// An annotation by views.
pub open spec fn note_view(a: Annotation) -> NoteView {
    (
        match a.document {
            Some(x) => Some(x@),
            None => None,
        },
        a.span,
        match a.message {
            Some(m) => Some(m@),
            None => None,
        },
    )
}

/// The annotations of each diagnostic, by views.
pub open spec fn diagnostic_notes(s: Seq<RuledDiagnostic>) -> Seq<Seq<NoteView>> {
    s.map_values(|d: RuledDiagnostic| d.diagnostic.annotations@.map_values(|a: Annotation| note_view(a)))
}

/// The note at `span` of document `related` saying `message`, on a diagnostic of document
/// `primary`: it names its document only when that is not the diagnostic's own.
pub open spec fn related_note(primary: Seq<char>, related: Seq<char>, span: TextSpan, message: Seq<char>) -> NoteView {
    (if primary == related {
        None
    } else {
        Some(related)
    }, span, Some(message))
}

/// The notes of a scope-redundancy report in document `doc` for step `st` of a view with scope
/// `scope`: where the scope is declared, then, for a step that names a relationship, that
/// relationship.
pub open spec fn scope_step_notes(doc: Seq<char>, scope: (TextSpan, (Seq<char>, usize), Seq<char>), st: StepView) -> Seq<
    NoteView,
> {
    let declared = related_note(doc, doc, scope.0, "view scope is declared here"@);
    match st {
        StepView::Explicit { .. } => seq![declared],
        StepView::Named { relationship, .. } => seq![
            declared,
            related_note(
                doc,
                relationship.1,
                relationship.2,
                "referenced relationship here already includes "@ + scope.2,
            ),
        ],
    }
}

/// The notes of the scope-redundancy reports among the first `n` steps of a dynamic view of
/// document `a`, report by report.
pub open spec fn scope_notes(
    docs: Seq<&WorkspaceSemanticDocumentFacts>,
    sites: Seq<SiteEntry>,
    ds: Seq<DeclaredView>,
    a: int,
    view: ViewFact,
    n: int,
) -> Seq<Seq<NoteView>>
    decreases n,
{
    if n <= 0 || view.kind != ViewKind::Dynamic {
        Seq::empty()
    } else {
        match scope_spec(docs, sites, a, view) {
            None => Seq::empty(),
            Some(scope) => {
                let rest = scope_notes(docs, sites, ds, a, view, n - 1);
                match step_spec(docs, sites, ds, a, view.dynamic_steps@[n - 1]) {
                    Some(st) => if step_touches(st, scope.1) {
                        rest.push(scope_step_notes(docs[a].document_id@, scope, st))
                    } else {
                        rest
                    },
                    None => rest,
                }
            },
        }
    }
}

/// The notes of the scope-redundancy reports of the first `n` views of document `a`.
pub open spec fn doc_scope_notes(
    docs: Seq<&WorkspaceSemanticDocumentFacts>,
    sites: Seq<SiteEntry>,
    ds: Seq<DeclaredView>,
    a: int,
    n: int,
) -> Seq<Seq<NoteView>>
    decreases n,
{
    if n <= 0 || docs[a].has_syntax_errors {
        Seq::empty()
    } else {
        let view = docs[a].view_facts@[n - 1];
        doc_scope_notes(docs, sites, ds, a, n - 1) + scope_notes(
            docs,
            sites,
            ds,
            a,
            view,
            view.dynamic_steps@.len() as int,
        )
    }
}

/// The notes of the scope-redundancy reports of the first `a` documents.
pub open spec fn all_scope_notes(
    docs: Seq<&WorkspaceSemanticDocumentFacts>,
    sites: Seq<SiteEntry>,
    ds: Seq<DeclaredView>,
    a: int,
) -> Seq<Seq<NoteView>>
    decreases a,
{
    if a <= 0 {
        Seq::empty()
    } else {
        all_scope_notes(docs, sites, ds, a - 1) + doc_scope_notes(
            docs,
            sites,
            ds,
            a - 1,
            docs[a - 1].view_facts@.len() as int,
        )
    }
}

/// Reports the steps of one dynamic view that re-add its scope element.
fn push_scope_redundancy(
    documents: &[&WorkspaceSemanticDocumentFacts],
    a: usize,
    view: &ViewFact,
    sites: &Vec<ResolvedSite>,
    declared: &Vec<DeclaredRelationship>,
    diagnostics: &mut Vec<RuledDiagnostic>,
)
    requires
        a < documents@.len(),
        forall|m: int|
            0 <= m < old(diagnostics)@.len() ==> scope_redundancy_report(#[trigger] old(diagnostics)@[m]),
    ensures
        targeted_sites(final(diagnostics)@) == targeted_sites(old(diagnostics)@) + scope_reports(
            documents@,
            site_views(sites@),
            declared_views(declared@),
            a as int,
            *view,
            view.dynamic_steps@.len() as int,
        ),
        diagnostic_notes(final(diagnostics)@) == diagnostic_notes(old(diagnostics)@) + scope_notes(
            documents@,
            site_views(sites@),
            declared_views(declared@),
            a as int,
            *view,
            view.dynamic_steps@.len() as int,
        ),
        forall|m: int|
            0 <= m < final(diagnostics)@.len() ==> scope_redundancy_report(#[trigger] final(diagnostics)@[m]),
{
    let ghost docs = documents@;
    let ghost sv = site_views(sites@);
    let ghost ds = declared_views(declared@);
    let ghost start = targeted_sites(diagnostics@);
    let ghost notes0 = diagnostic_notes(diagnostics@);
    if view.kind != ViewKind::Dynamic {
        assert(scope_reports(docs, sv, ds, a as int, *view, view.dynamic_steps@.len() as int) =~= Seq::<
            (Seq<char>, TextSpan, Seq<char>),
        >::empty());
        assert(targeted_sites(diagnostics@) =~= start + Seq::<(Seq<char>, TextSpan, Seq<char>)>::empty());
        assert(scope_notes(docs, sv, ds, a as int, *view, view.dynamic_steps@.len() as int) =~= Seq::<Seq<NoteView>>::empty());
        assert(diagnostic_notes(diagnostics@) =~= notes0 + Seq::<Seq<NoteView>>::empty());
        return;
    }
    let scope = match resolve_dynamic_scope(documents, a, view, sites) {
        Some(s) => s,
        None => {
            assert forall|k: int| 0 <= k <= view.dynamic_steps@.len() implies #[trigger] scope_reports(
                docs,
                sv,
                ds,
                a as int,
                *view,
                k,
            ) =~= Seq::<(Seq<char>, TextSpan, Seq<char>)>::empty() by {}
            assert(targeted_sites(diagnostics@) =~= start + Seq::<(Seq<char>, TextSpan, Seq<char>)>::empty());
            assert forall|k: int| 0 <= k <= view.dynamic_steps@.len() implies #[trigger] scope_notes(
                docs,
                sv,
                ds,
                a as int,
                *view,
                k,
            ) =~= Seq::<Seq<NoteView>>::empty() by {}
            assert(diagnostic_notes(diagnostics@) =~= notes0 + Seq::<Seq<NoteView>>::empty());
            return;
        },
    };
    let document = documents[a];
    let mut i: usize = 0;
    assert(targeted_sites(diagnostics@) =~= start + scope_reports(docs, sv, ds, a as int, *view, 0));
    assert(diagnostic_notes(diagnostics@) =~= notes0 + scope_notes(docs, sv, ds, a as int, *view, 0));
    while i < view.dynamic_steps.len()
        invariant
            docs == documents@,
            sv == site_views(sites@),
            ds == declared_views(declared@),
            a < docs.len(),
            document == docs[a as int],
            view.kind == ViewKind::Dynamic,
            scope_spec(docs, sv, a as int, *view) == Some((scope.0, scope.1@, scope.2@)),
            i <= view.dynamic_steps@.len(),
            start == targeted_sites(old(diagnostics)@),
            targeted_sites(diagnostics@) == start + scope_reports(docs, sv, ds, a as int, *view, i as int),
            notes0 == diagnostic_notes(old(diagnostics)@),
            diagnostic_notes(diagnostics@) == notes0 + scope_notes(docs, sv, ds, a as int, *view, i as int),
            forall|m: int|
                0 <= m < diagnostics@.len() ==> scope_redundancy_report(#[trigger] diagnostics@[m]),
        decreases view.dynamic_steps.len() - i,
    {
        let ghost before = diagnostics@;
        let step = resolve_dynamic_step(documents, a, &view.dynamic_steps[i], sites, declared);
        let mut pushed = false;
        match &step {
            Some(ResolvedDynamicStep::Explicit { span, source, destination, .. }) => {
                if source.same(&scope.1) || destination.same(&scope.1) {
                    let mut diagnostic = RuledDiagnostic::dynamic_view_scope_redundancy(
                        &document.document_id,
                        scope.2.as_str(),
                        *span,
                    );
                    diagnostic.annotate(
                        secondary_annotation(
                            &document.document_id,
                            &document.document_id,
                            scope.0,
                            "view scope is declared here".to_owned(),
                        ),
                    );
                    proof {
                        let st = step_spec(docs, sv, ds, a as int, view.dynamic_steps@[i as int]);
                        assert(diagnostic.diagnostic.annotations@.map_values(|x: Annotation| note_view(x))
                            =~= scope_step_notes(docs[a as int].document_id@, (scope.0, scope.1@, scope.2@), st->0));
                    }
                    diagnostics.push(diagnostic);
                    pushed = true;
                }
            },
            Some(ResolvedDynamicStep::Named { span, relationship }) => {
                if relationship.source.same(&scope.1) || relationship.destination.same(&scope.1) {
                    let mut diagnostic = RuledDiagnostic::dynamic_view_scope_redundancy(
                        &document.document_id,
                        scope.2.as_str(),
                        *span,
                    );
                    diagnostic.annotate(
                        secondary_annotation(
                            &document.document_id,
                            &document.document_id,
                            scope.0,
                            "view scope is declared here".to_owned(),
                        ),
                    );
                    let message = crate::text::cat("referenced relationship here already includes ", scope.2.as_str());
                    diagnostic.annotate(
                        secondary_annotation(&document.document_id, &relationship.document, relationship.span, message),
                    );
                    proof {
                        let st = step_spec(docs, sv, ds, a as int, view.dynamic_steps@[i as int]);
                        assert(diagnostic.diagnostic.annotations@.map_values(|x: Annotation| note_view(x))
                            =~= scope_step_notes(docs[a as int].document_id@, (scope.0, scope.1@, scope.2@), st->0));
                    }
                    diagnostics.push(diagnostic);
                    pushed = true;
                }
            },
            None => {},
        }
        proof {
            let st = step_spec(docs, sv, ds, a as int, view.dynamic_steps@[i as int]);
            if pushed {
                let e = (docs[a as int].document_id@, step_span(st->0), scope.2@);
                assert(targeted_sites(diagnostics@) =~= targeted_sites(before).push(e));
                let ne = scope_step_notes(docs[a as int].document_id@, (scope.0, scope.1@, scope.2@), st->0);
                assert(diagnostic_notes(diagnostics@) =~= diagnostic_notes(before).push(ne));
                assert(notes0 + scope_notes(docs, sv, ds, a as int, *view, i + 1) =~= (notes0 + scope_notes(
                    docs,
                    sv,
                    ds,
                    a as int,
                    *view,
                    i as int,
                )).push(ne));
                assert(start + scope_reports(docs, sv, ds, a as int, *view, i + 1) =~= (start + scope_reports(
                    docs,
                    sv,
                    ds,
                    a as int,
                    *view,
                    i as int,
                )).push(e));
                assert forall|m: int| 0 <= m < diagnostics@.len() implies scope_redundancy_report(#[trigger] diagnostics@[m]) by {
                    if m < before.len() {
                        assert(diagnostics@[m] == before[m]);
                    }
                }
            } else {
                assert(scope_reports(docs, sv, ds, a as int, *view, i + 1) == scope_reports(
                    docs,
                    sv,
                    ds,
                    a as int,
                    *view,
                    i as int,
                ));
                assert(scope_notes(docs, sv, ds, a as int, *view, i + 1) == scope_notes(
                    docs,
                    sv,
                    ds,
                    a as int,
                    *view,
                    i as int,
                ));
            }
        }
        i = i + 1;
    }
}

/// Reports each step of a dynamic view that re-adds the view's scope element.
pub fn dynamic_view_scope_redundancy_diagnostics(
    documents: &[&WorkspaceSemanticDocumentFacts],
    sites: &Vec<ResolvedSite>,
    declared: &Vec<DeclaredRelationship>,
) -> (r: Vec<RuledDiagnostic>)
    ensures
        targeted_sites(r@) == all_scope_reports(
            documents@,
            site_views(sites@),
            declared_views(declared@),
            documents@.len() as int,
        ),
        diagnostic_notes(r@) == all_scope_notes(
            documents@,
            site_views(sites@),
            declared_views(declared@),
            documents@.len() as int,
        ),
        forall|m: int| 0 <= m < r@.len() ==> code_of(#[trigger] r@[m]) == "semantic.dynamic-view-scope-redundancy"@,
        forall|m: int| 0 <= m < r@.len() ==> scope_redundancy_report(#[trigger] r@[m]),
{
    let ghost docs = documents@;
    let ghost sv = site_views(sites@);
    let ghost ds = declared_views(declared@);
    let mut diagnostics: Vec<RuledDiagnostic> = Vec::new();
    let mut a: usize = 0;
    while a < documents.len()
        invariant
            docs == documents@,
            sv == site_views(sites@),
            ds == declared_views(declared@),
            a <= docs.len(),
            targeted_sites(diagnostics@) == all_scope_reports(docs, sv, ds, a as int),
            diagnostic_notes(diagnostics@) == all_scope_notes(docs, sv, ds, a as int),
            forall|m: int|
                0 <= m < diagnostics@.len() ==> scope_redundancy_report(#[trigger] diagnostics@[m]),
        decreases docs.len() - a,
    {
        let document = documents[a];
        let mut v: usize = 0;
        if document.has_syntax_errors {
            v = document.view_facts.len();
        }
        while v < document.view_facts.len() && !document.has_syntax_errors
            invariant
                docs == documents@,
                sv == site_views(sites@),
                ds == declared_views(declared@),
                0 <= a < docs.len(),
                document == docs[a as int],
                v <= document.view_facts@.len(),
                targeted_sites(diagnostics@) == all_scope_reports(docs, sv, ds, a as int) + doc_scope_reports(
                    docs,
                    sv,
                    ds,
                    a as int,
                    v as int,
                ),
                diagnostic_notes(diagnostics@) == all_scope_notes(docs, sv, ds, a as int) + doc_scope_notes(
                    docs,
                    sv,
                    ds,
                    a as int,
                    v as int,
                ),
                forall|m: int|
                    0 <= m < diagnostics@.len() ==> scope_redundancy_report(#[trigger] diagnostics@[m]),
            decreases document.view_facts.len() - v,
        {
            let ghost before = targeted_sites(diagnostics@);
            push_scope_redundancy(documents, a, &document.view_facts[v], sites, declared, &mut diagnostics);
            proof {
                let view = document.view_facts@[v as int];
                assert(all_scope_notes(docs, sv, ds, a as int) + doc_scope_notes(docs, sv, ds, a as int, v + 1)
                    =~= all_scope_notes(docs, sv, ds, a as int) + doc_scope_notes(docs, sv, ds, a as int, v as int)
                    + scope_notes(docs, sv, ds, a as int, view, view.dynamic_steps@.len() as int));
                assert(all_scope_reports(docs, sv, ds, a as int) + doc_scope_reports(docs, sv, ds, a as int, v + 1)
                    =~= all_scope_reports(docs, sv, ds, a as int) + doc_scope_reports(docs, sv, ds, a as int, v as int)
                    + scope_reports(docs, sv, ds, a as int, view, view.dynamic_steps@.len() as int));
            }
            v = v + 1;
        }
        proof {
            assert(all_scope_reports(docs, sv, ds, a + 1) == all_scope_reports(docs, sv, ds, a as int)
                + doc_scope_reports(docs, sv, ds, a as int, document.view_facts@.len() as int));
            assert(all_scope_notes(docs, sv, ds, a + 1) == all_scope_notes(docs, sv, ds, a as int)
                + doc_scope_notes(docs, sv, ds, a as int, document.view_facts@.len() as int));
        }
        a = a + 1;
    }
    diagnostics
}


/// The message reported for a dynamic step with no declared relationship.
pub open spec fn mismatch_message(source_name: Seq<char>, destination_name: Seq<char>, technology: Option<Seq<char>>) -> Seq<
    char,
> {
    match technology {
        None => "A relationship between "@ + source_name + " and "@ + destination_name + " does not exist in model."@,
        Some(t) => "A relationship between "@ + source_name + " and "@ + destination_name + " with technology "@ + t
            + " does not exist in model."@,
    }
}

/// The document, span, and message a diagnostic reports.
pub open spec fn message_site(d: RuledDiagnostic) -> (Seq<char>, TextSpan, Seq<char>) {
    (
        match d.diagnostic.document {
            Some(x) => x@,
            None => Seq::empty(),
        },
        d.diagnostic.span,
        d.diagnostic.message@,
    )
}

/// The message sites of a list of diagnostics.
pub open spec fn message_sites(s: Seq<RuledDiagnostic>) -> Seq<(Seq<char>, TextSpan, Seq<char>)> {
    s.map_values(|d: RuledDiagnostic| message_site(d))
}

/// Walks the first `n` steps of a dynamic view of document `a`, tracking which declared
/// relationships the view has shown: a named step shows its relationship; an explicit step
/// that touches the scope is skipped; one that follows a declared relationship shows it; one
/// that answers a relationship already shown is accepted; any other is reported.
pub open spec fn relationship_fold(
    docs: Seq<&WorkspaceSemanticDocumentFacts>,
    sites: Seq<SiteEntry>,
    ds: Seq<DeclaredView>,
    a: int,
    view: ViewFact,
    n: int,
) -> (Set<(Seq<char>, TextSpan)>, Seq<(Seq<char>, TextSpan, Seq<char>)>)
    decreases n,
{
    if n <= 0 {
        (Set::empty(), Seq::empty())
    } else {
        let (seen, out) = relationship_fold(docs, sites, ds, a, view, n - 1);
        match step_spec(docs, sites, ds, a, view.dynamic_steps@[n - 1]) {
            None => (seen, out),
            Some(StepView::Named { relationship, .. }) => (seen.insert((relationship.1, relationship.2)), out),
            Some(StepView::Explicit { span, source, destination, source_name, destination_name, technology }) => {
                let scope = scope_spec(docs, sites, a, view);
                let touches = match scope {
                    Some(sc) => sc.1 == source || sc.1 == destination,
                    None => false,
                };
                if touches {
                    (seen, out)
                } else {
                    let mi = first_matching(ds, source, destination, technology);
                    if mi >= 0 {
                        (seen.insert((ds[mi].1, ds[mi].2)), out)
                    } else if response_in_view(ds, source, destination, technology, seen) {
                        (seen, out)
                    } else {
                        (
                            seen,
                            out.push(
                                (docs[a].document_id@, span, mismatch_message(source_name, destination_name, technology)),
                            ),
                        )
                    }
                }
            },
        }
    }
}

/// The mismatch reports of one view (only dynamic views have any).
pub open spec fn view_relationship_reports(
    docs: Seq<&WorkspaceSemanticDocumentFacts>,
    sites: Seq<SiteEntry>,
    ds: Seq<DeclaredView>,
    a: int,
    view: ViewFact,
) -> Seq<(Seq<char>, TextSpan, Seq<char>)> {
    if view.kind != ViewKind::Dynamic {
        Seq::empty()
    } else {
        relationship_fold(docs, sites, ds, a, view, view.dynamic_steps@.len() as int).1
    }
}

/// The mismatch reports of the first `n` views of document `a`.
pub open spec fn doc_relationship_reports(
    docs: Seq<&WorkspaceSemanticDocumentFacts>,
    sites: Seq<SiteEntry>,
    ds: Seq<DeclaredView>,
    a: int,
    n: int,
) -> Seq<(Seq<char>, TextSpan, Seq<char>)>
    decreases n,
{
    if n <= 0 || docs[a].has_syntax_errors {
        Seq::empty()
    } else {
        doc_relationship_reports(docs, sites, ds, a, n - 1) + view_relationship_reports(
            docs,
            sites,
            ds,
            a,
            docs[a].view_facts@[n - 1],
        )
    }
}

/// The mismatch reports of the first `a` documents.
pub open spec fn all_relationship_reports(
    docs: Seq<&WorkspaceSemanticDocumentFacts>,
    sites: Seq<SiteEntry>,
    ds: Seq<DeclaredView>,
    a: int,
) -> Seq<(Seq<char>, TextSpan, Seq<char>)>
    decreases a,
{
    if a <= 0 {
        Seq::empty()
    } else {
        all_relationship_reports(docs, sites, ds, a - 1) + doc_relationship_reports(
            docs,
            sites,
            ds,
            a - 1,
            docs[a - 1].view_facts@.len() as int,
        )
    }
}

proof fn lemma_location_push(seen: Seq<(DocumentId, TextSpan)>, x: (DocumentId, TextSpan))
    ensures
        location_set(seen.push(x)) == location_set(seen).insert((x.0@, x.1)),
{
    assert forall|l: (Seq<char>, TextSpan)| location_set(seen.push(x)).contains(l) <==> location_set(seen).insert(
        (x.0@, x.1),
    ).contains(l) by {
        if location_set(seen.push(x)).contains(l) {
            let i = choose|i: int| 0 <= i < seen.push(x).len() && (#[trigger] seen.push(x)[i]).0@ == l.0 && seen.push(x)[i].1 == l.1;
            if i < seen.len() {
                assert(seen[i] == seen.push(x)[i]);
            }
        }
        if location_set(seen).contains(l) {
            let i = choose|i: int| 0 <= i < seen.len() && (#[trigger] seen[i]).0@ == l.0 && seen[i].1 == l.1;
            assert(seen.push(x)[i] == seen[i]);
        }
        if l == (x.0@, x.1) {
            assert(seen.push(x)[seen.len() as int] == x);
        }
    }
    assert(location_set(seen.push(x)) =~= location_set(seen).insert((x.0@, x.1)));
}

/// What the related context says of the technology a declared relationship declares.
pub open spec fn technology_note(declared: Option<Seq<char>>) -> Seq<char> {
    match declared {
        None => "declared relationship here does not declare a technology"@,
        Some(t) => "declared relationship here uses technology "@ + t,
    }
}

/// The secondary context for a mismatching step that names a technology: the declared
/// relationship between the same endpoints, and the technology it declares if any.
pub fn dynamic_relationship_annotation(
    primary: &DocumentId,
    source: &SymbolHandle,
    destination: &SymbolHandle,
    technology: Option<&str>,
    declared: &Vec<DeclaredRelationship>,
) -> (r: Option<Annotation>)
    ensures
        ({
            let i = first_matching(declared_views(declared@), source@, destination@, None);
            match r {
                None => technology is None || i < 0,
                Some(a) => {
                    let x = declared_views(declared@)[i];
                    &&& technology is Some
                    &&& 0 <= i < declared@.len()
                    &&& a.span == x.2
                    &&& a.message matches Some(m) && m@ == technology_note(x.5)
                    &&& (primary@ == x.1 ==> a.document is None)
                    &&& (primary@ != x.1 ==> (a.document matches Some(dd) && dd@ == x.1))
                },
            }
        }),
{
    if technology.is_none() {
        return None;
    }
    let candidate = match matching_declared_relationship(source, destination, None, declared) {
        Some(c) => c,
        None => {
            return None;
        },
    };
    proof {
        lemma_first_matching_bounds(declared_views(declared@), source@, destination@, None);
    }
    let message = match &candidate.technology {
        None => "declared relationship here does not declare a technology".to_owned(),
        Some(existing) => crate::text::cat("declared relationship here uses technology ", existing.as_str()),
    };
    Some(secondary_annotation(primary, &candidate.document, candidate.span, message))
}

/// The notes of a mismatch report in document `doc` for a step naming a technology: the declared
/// relationship between the same endpoints, if any, and the technology it declares.
pub open spec fn mismatch_notes(
    doc: Seq<char>,
    ds: Seq<DeclaredView>,
    source: (Seq<char>, usize),
    destination: (Seq<char>, usize),
    technology: Option<Seq<char>>,
) -> Seq<NoteView> {
    let i = first_matching(ds, source, destination, None);
    if technology is Some && 0 <= i < ds.len() {
        seq![related_note(doc, ds[i].1, ds[i].2, technology_note(ds[i].5))]
    } else {
        Seq::empty()
    }
}

/// The notes of the mismatch reports among the first `n` steps of a dynamic view of document
/// `a`, report by report.
pub open spec fn relationship_notes(
    docs: Seq<&WorkspaceSemanticDocumentFacts>,
    sites: Seq<SiteEntry>,
    ds: Seq<DeclaredView>,
    a: int,
    view: ViewFact,
    n: int,
) -> Seq<Seq<NoteView>>
    decreases n,
{
    if n <= 0 {
        Seq::empty()
    } else {
        let rest = relationship_notes(docs, sites, ds, a, view, n - 1);
        let seen = relationship_fold(docs, sites, ds, a, view, n - 1).0;
        match step_spec(docs, sites, ds, a, view.dynamic_steps@[n - 1]) {
            Some(StepView::Explicit { source, destination, technology, .. }) => {
                let touches = match scope_spec(docs, sites, a, view) {
                    Some(sc) => sc.1 == source || sc.1 == destination,
                    None => false,
                };
                if !touches && first_matching(ds, source, destination, technology) < 0 && !response_in_view(
                    ds,
                    source,
                    destination,
                    technology,
                    seen,
                ) {
                    rest.push(mismatch_notes(docs[a].document_id@, ds, source, destination, technology))
                } else {
                    rest
                }
            },
            _ => rest,
        }
    }
}

/// The notes of the mismatch reports of one view.
pub open spec fn view_relationship_notes(
    docs: Seq<&WorkspaceSemanticDocumentFacts>,
    sites: Seq<SiteEntry>,
    ds: Seq<DeclaredView>,
    a: int,
    view: ViewFact,
) -> Seq<Seq<NoteView>> {
    if view.kind != ViewKind::Dynamic {
        Seq::empty()
    } else {
        relationship_notes(docs, sites, ds, a, view, view.dynamic_steps@.len() as int)
    }
}

/// The notes of the mismatch reports of the first `n` views of document `a`.
pub open spec fn doc_relationship_notes(
    docs: Seq<&WorkspaceSemanticDocumentFacts>,
    sites: Seq<SiteEntry>,
    ds: Seq<DeclaredView>,
    a: int,
    n: int,
) -> Seq<Seq<NoteView>>
    decreases n,
{
    if n <= 0 || docs[a].has_syntax_errors {
        Seq::empty()
    } else {
        doc_relationship_notes(docs, sites, ds, a, n - 1) + view_relationship_notes(
            docs,
            sites,
            ds,
            a,
            docs[a].view_facts@[n - 1],
        )
    }
}

/// The notes of the mismatch reports of the first `a` documents.
pub open spec fn all_relationship_notes(
    docs: Seq<&WorkspaceSemanticDocumentFacts>,
    sites: Seq<SiteEntry>,
    ds: Seq<DeclaredView>,
    a: int,
) -> Seq<Seq<NoteView>>
    decreases a,
{
    if a <= 0 {
        Seq::empty()
    } else {
        all_relationship_notes(docs, sites, ds, a - 1) + doc_relationship_notes(
            docs,
            sites,
            ds,
            a - 1,
            docs[a - 1].view_facts@.len() as int,
        )
    }
}

/// Checks the explicit steps of one dynamic view against the declared relationships.
fn push_relationship_mismatches(
    documents: &[&WorkspaceSemanticDocumentFacts],
    a: usize,
    view: &ViewFact,
    sites: &Vec<ResolvedSite>,
    declared: &Vec<DeclaredRelationship>,
    diagnostics: &mut Vec<RuledDiagnostic>,
)
    requires
        a < documents@.len(),
        forall|m: int|
            0 <= m < old(diagnostics)@.len() ==> code_of(#[trigger] old(diagnostics)@[m])
                == "semantic.dynamic-view-relationship-mismatch"@,
    ensures
        message_sites(final(diagnostics)@) == message_sites(old(diagnostics)@) + view_relationship_reports(
            documents@,
            site_views(sites@),
            declared_views(declared@),
            a as int,
            *view,
        ),
        diagnostic_notes(final(diagnostics)@) == diagnostic_notes(old(diagnostics)@) + view_relationship_notes(
            documents@,
            site_views(sites@),
            declared_views(declared@),
            a as int,
            *view,
        ),
        forall|m: int|
            0 <= m < final(diagnostics)@.len() ==> code_of(#[trigger] final(diagnostics)@[m])
                == "semantic.dynamic-view-relationship-mismatch"@,
{
    let ghost docs = documents@;
    let ghost sv = site_views(sites@);
    let ghost ds = declared_views(declared@);
    let ghost start = message_sites(diagnostics@);
    let ghost notes0 = diagnostic_notes(diagnostics@);
    if view.kind != ViewKind::Dynamic {
        assert(message_sites(diagnostics@) =~= start + Seq::<(Seq<char>, TextSpan, Seq<char>)>::empty());
        assert(diagnostic_notes(diagnostics@) =~= notes0 + Seq::<Seq<NoteView>>::empty());
        return;
    }
    let scope = resolve_dynamic_scope(documents, a, view, sites);
    let document = documents[a];
    let mut seen: Vec<(DocumentId, TextSpan)> = Vec::new();
    let mut i: usize = 0;
    proof {
        assert(location_set(seen@) =~= Set::<(Seq<char>, TextSpan)>::empty());
        assert(message_sites(diagnostics@) =~= start + relationship_fold(docs, sv, ds, a as int, *view, 0).1);
        assert(diagnostic_notes(diagnostics@) =~= notes0 + relationship_notes(docs, sv, ds, a as int, *view, 0));
    }
    while i < view.dynamic_steps.len()
        invariant
            docs == documents@,
            sv == site_views(sites@),
            ds == declared_views(declared@),
            a < docs.len(),
            document == docs[a as int],
            view.kind == ViewKind::Dynamic,
            match scope {
                Some(x) => scope_spec(docs, sv, a as int, *view) == Some((x.0, x.1@, x.2@)),
                None => scope_spec(docs, sv, a as int, *view) is None,
            },
            i <= view.dynamic_steps@.len(),
            start == message_sites(old(diagnostics)@),
            location_set(seen@) == relationship_fold(docs, sv, ds, a as int, *view, i as int).0,
            message_sites(diagnostics@) == start + relationship_fold(docs, sv, ds, a as int, *view, i as int).1,
            notes0 == diagnostic_notes(old(diagnostics)@),
            diagnostic_notes(diagnostics@) == notes0 + relationship_notes(docs, sv, ds, a as int, *view, i as int),
            forall|m: int|
                0 <= m < diagnostics@.len() ==> code_of(#[trigger] diagnostics@[m])
                    == "semantic.dynamic-view-relationship-mismatch"@,
        decreases view.dynamic_steps.len() - i,
    {
        let ghost before = diagnostics@;
        let ghost seen0 = seen@;
        let ghost prev = relationship_fold(docs, sv, ds, a as int, *view, i as int);
        let step = resolve_dynamic_step(documents, a, &view.dynamic_steps[i], sites, declared);
        match step {
            None => {},
            Some(ResolvedDynamicStep::Named { relationship, .. }) => {
                seen.push((relationship.document.clone(), relationship.span));
                proof {
                    lemma_location_push(seen0, seen@.last());
                    assert(seen@ == seen0.push(seen@.last()));
                }
            },
            Some(ResolvedDynamicStep::Explicit { span, source, destination, source_name, destination_name, technology }) => {
                let touches_scope = match &scope {
                    Some(x) => x.1.same(&source) || x.1.same(&destination),
                    None => false,
                };
                if !touches_scope {
                    let tech = opt_as_str(&technology);
                    match matching_declared_relationship(&source, &destination, tech, declared) {
                        Some(rel) => {
                            proof {
                                lemma_first_matching_bounds(ds, source@, destination@, opt_str(technology));
                            }
                            seen.push((rel.document.clone(), rel.span));
                            proof {
                                lemma_location_push(seen0, seen@.last());
                                assert(seen@ == seen0.push(seen@.last()));
                            }
                        },
                        None => {
                            if !response_relationship_is_in_view(&source, &destination, tech, declared, &seen) {
                                let mut diagnostic = RuledDiagnostic::dynamic_view_relationship_mismatch(
                                    &document.document_id,
                                    source_name.as_str(),
                                    destination_name.as_str(),
                                    tech,
                                    span,
                                );
                                let note = dynamic_relationship_annotation(
                                    &document.document_id,
                                    &source,
                                    &destination,
                                    tech,
                                    declared,
                                );
                                proof {
                                    lemma_first_matching_bounds(ds, source@, destination@, None);
                                }
                                match note {
                                    Some(annotation) => diagnostic.annotate(annotation),
                                    None => {},
                                }
                                proof {
                                    let ne = mismatch_notes(
                                        docs[a as int].document_id@,
                                        ds,
                                        source@,
                                        destination@,
                                        opt_str(technology),
                                    );
                                    assert(diagnostic.diagnostic.annotations@.map_values(|x: Annotation| note_view(x))
                                        =~= ne);
                                    assert(diagnostic_notes(before.push(diagnostic)) =~= diagnostic_notes(before).push(ne));
                                }
                                diagnostics.push(diagnostic);
                                proof {
                                    let e = (
                                        docs[a as int].document_id@,
                                        span,
                                        mismatch_message(source_name@, destination_name@, opt_str(technology)),
                                    );
                                    assert(message_sites(diagnostics@) =~= message_sites(before).push(e));
                                    assert forall|m: int| 0 <= m < diagnostics@.len() implies code_of(
                                        #[trigger] diagnostics@[m],
                                    ) == "semantic.dynamic-view-relationship-mismatch"@ by {
                                        if m < before.len() {
                                            assert(diagnostics@[m] == before[m]);
                                        }
                                    }
                                }
                            }
                        },
                    }
                }
            },
        }
        proof {
            let next = relationship_fold(docs, sv, ds, a as int, *view, i + 1);
            assert(location_set(seen@) == next.0);
            assert(message_sites(diagnostics@) =~= start + next.1);
            assert(diagnostic_notes(diagnostics@) =~= notes0 + relationship_notes(docs, sv, ds, a as int, *view, i + 1));
        }
        i = i + 1;
    }
}

/// Reports each explicit step of a dynamic view that follows no declared relationship and does
/// not answer one the view has already shown.
pub fn dynamic_view_relationship_diagnostics(
    documents: &[&WorkspaceSemanticDocumentFacts],
    sites: &Vec<ResolvedSite>,
    declared: &Vec<DeclaredRelationship>,
) -> (r: Vec<RuledDiagnostic>)
    ensures
        message_sites(r@) == all_relationship_reports(
            documents@,
            site_views(sites@),
            declared_views(declared@),
            documents@.len() as int,
        ),
        diagnostic_notes(r@) == all_relationship_notes(
            documents@,
            site_views(sites@),
            declared_views(declared@),
            documents@.len() as int,
        ),
        forall|m: int|
            0 <= m < r@.len() ==> code_of(#[trigger] r@[m]) == "semantic.dynamic-view-relationship-mismatch"@,
{
    let ghost docs = documents@;
    let ghost sv = site_views(sites@);
    let ghost ds = declared_views(declared@);
    let mut diagnostics: Vec<RuledDiagnostic> = Vec::new();
    let mut a: usize = 0;
    while a < documents.len()
        invariant
            docs == documents@,
            sv == site_views(sites@),
            ds == declared_views(declared@),
            a <= docs.len(),
            message_sites(diagnostics@) == all_relationship_reports(docs, sv, ds, a as int),
            diagnostic_notes(diagnostics@) == all_relationship_notes(docs, sv, ds, a as int),
            forall|m: int|
                0 <= m < diagnostics@.len() ==> code_of(#[trigger] diagnostics@[m])
                    == "semantic.dynamic-view-relationship-mismatch"@,
        decreases docs.len() - a,
    {
        let document = documents[a];
        let mut v: usize = 0;
        if document.has_syntax_errors {
            v = document.view_facts.len();
        }
        while v < document.view_facts.len() && !document.has_syntax_errors
            invariant
                docs == documents@,
                sv == site_views(sites@),
                ds == declared_views(declared@),
                0 <= a < docs.len(),
                document == docs[a as int],
                v <= document.view_facts@.len(),
                message_sites(diagnostics@) == all_relationship_reports(docs, sv, ds, a as int)
                    + doc_relationship_reports(docs, sv, ds, a as int, v as int),
                diagnostic_notes(diagnostics@) == all_relationship_notes(docs, sv, ds, a as int)
                    + doc_relationship_notes(docs, sv, ds, a as int, v as int),
                forall|m: int|
                    0 <= m < diagnostics@.len() ==> code_of(#[trigger] diagnostics@[m])
                        == "semantic.dynamic-view-relationship-mismatch"@,
            decreases document.view_facts.len() - v,
        {
            push_relationship_mismatches(documents, a, &document.view_facts[v], sites, declared, &mut diagnostics);
            proof {
                let view = document.view_facts@[v as int];
                assert(all_relationship_reports(docs, sv, ds, a as int) + doc_relationship_reports(
                    docs,
                    sv,
                    ds,
                    a as int,
                    v + 1,
                ) =~= all_relationship_reports(docs, sv, ds, a as int) + doc_relationship_reports(
                    docs,
                    sv,
                    ds,
                    a as int,
                    v as int,
                ) + view_relationship_reports(docs, sv, ds, a as int, view));
                assert(all_relationship_notes(docs, sv, ds, a as int) + doc_relationship_notes(
                    docs,
                    sv,
                    ds,
                    a as int,
                    v + 1,
                ) =~= all_relationship_notes(docs, sv, ds, a as int) + doc_relationship_notes(
                    docs,
                    sv,
                    ds,
                    a as int,
                    v as int,
                ) + view_relationship_notes(docs, sv, ds, a as int, view));
            }
            v = v + 1;
        }
        proof {
            assert(all_relationship_reports(docs, sv, ds, a + 1) == all_relationship_reports(docs, sv, ds, a as int)
                + doc_relationship_reports(docs, sv, ds, a as int, document.view_facts@.len() as int));
            assert(all_relationship_notes(docs, sv, ds, a + 1) == all_relationship_notes(docs, sv, ds, a as int)
                + doc_relationship_notes(docs, sv, ds, a as int, document.view_facts@.len() as int));
        }
        a = a + 1;
    }
    diagnostics
}

} // verus!
