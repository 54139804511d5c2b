//! Per-instance reference tables: every reference's resolution, the symbol each resolved site
//! names, and the reverse index from symbols to their references.

use vstd::prelude::*;

use crate::diagnostics::{code_of, targeted_shaped, RuledDiagnostic};
use crate::snapshot::DocumentId;
use crate::span::TextSpan;
use crate::symbols::{Reference, ReferenceKind};
use crate::workspace::index::{documents_well_formed, facts_well_formed, WorkspaceBindingTables, WorkspaceSemanticDocumentFacts};
use crate::workspace::model::{ReferenceHandle, ReferenceResolutionStatus, Resolution, SymbolHandle};
use crate::workspace::resolve::{reference_status, resolve_reference_status};

verus! {

/// One resolved reference site: its document, role, span, and the symbol it names.
pub struct ResolvedSite {
    /// The document of the reference.
    pub document: DocumentId,
    /// The reference's role.
    pub kind: ReferenceKind,
    /// The reference's span.
    pub span: TextSpan,
    /// The symbol the reference resolved to.
    pub target: SymbolHandle,
}

/// The reference tables of one workspace instance.
pub struct WorkspaceReferenceTables {
    /// Every reference's handle and resolution, in document and reference order.
    pub resolutions: Vec<(ReferenceHandle, ReferenceResolutionStatus)>,
    /// Every resolved site, in document and reference order.
    pub resolved_targets: Vec<ResolvedSite>,
    /// Unresolved- and ambiguous-reference diagnostics.
    pub semantic_diagnostics: Vec<RuledDiagnostic>,
}

/// The resolution of reference `r` of document `a`.
#[verifier::opaque]
pub open spec fn status_at(
    docs: Seq<&WorkspaceSemanticDocumentFacts>,
    tables: &WorkspaceBindingTables,
    a: int,
    r: int,
) -> Resolution {
    reference_status(docs[a], docs[a].references@[r], tables, docs)
}

/// Whether a reference's generic diagnostics are reported (selector segments report through
/// their selector instead).
pub open spec fn emits_generic(reference: Reference) -> bool {
    reference.kind != ReferenceKind::ElementSelectorTarget
}

/// Whether a reference is reported as generically unresolved or ambiguous.
pub fn emits_generic_reference_diagnostics(reference: &Reference) -> (r: bool)
    ensures
        r == emits_generic(*reference),
{
    match reference.kind {
        ReferenceKind::ElementSelectorTarget => false,
        _ => true,
    }
}

/// The diagnostic the generic reference rules report for one reference and outcome, if any.
pub open spec fn reference_diagnostic_code(reference: Reference, status: Resolution) -> Option<Seq<char>> {
    if !emits_generic(reference) {
        None
    } else {
        match status {
            Resolution::Unresolved => Some("semantic.unresolved-reference"@),
            Resolution::AmbiguousDuplicate => Some("semantic.ambiguous-reference"@),
            Resolution::AmbiguousElementVsRelationship => Some("semantic.ambiguous-reference"@),
            _ => None,
        }
    }
}

/// One recorded resolution, by views: the reference handle and the outcome.
pub type ResolutionEntry = ((Seq<char>, usize), Resolution);

/// One recorded resolved site, by views: document, role, span, and target.
pub type SiteEntry = (Seq<char>, ReferenceKind, TextSpan, (Seq<char>, usize));

/// The resolutions of the first `r` references of document `a`.
pub open spec fn doc_resolutions(
    docs: Seq<&WorkspaceSemanticDocumentFacts>,
    tables: &WorkspaceBindingTables,
    a: int,
    r: int,
) -> Seq<ResolutionEntry>
    decreases r,
{
    if r <= 0 {
        Seq::empty()
    } else {
        doc_resolutions(docs, tables, a, r - 1).push(
            ((docs[a].document_id@, (r - 1) as usize), status_at(docs, tables, a, r - 1)),
        )
    }
}

/// The resolutions of every reference of the first `a` documents.
pub open spec fn all_resolutions(
    docs: Seq<&WorkspaceSemanticDocumentFacts>,
    tables: &WorkspaceBindingTables,
    a: int,
) -> Seq<ResolutionEntry>
    decreases a,
{
    if a <= 0 {
        Seq::empty()
    } else {
        all_resolutions(docs, tables, a - 1) + doc_resolutions(
            docs,
            tables,
            a - 1,
            docs[a - 1].references@.len() as int,
        )
    }
}

/// The resolved sites among the first `r` references of document `a`.
pub open spec fn doc_sites(
    docs: Seq<&WorkspaceSemanticDocumentFacts>,
    tables: &WorkspaceBindingTables,
    a: int,
    r: int,
) -> Seq<SiteEntry>
    decreases r,
{
    if r <= 0 {
        Seq::empty()
    } else {
        let rest = doc_sites(docs, tables, a, r - 1);
        match status_at(docs, tables, a, r - 1) {
            Resolution::Resolved(h) => rest.push(
                (
                    docs[a].document_id@,
                    docs[a].references@[r - 1].kind,
                    docs[a].references@[r - 1].span,
                    h,
                ),
            ),
            _ => rest,
        }
    }
}

/// The resolved sites among every reference of the first `a` documents.
pub open spec fn all_sites(
    docs: Seq<&WorkspaceSemanticDocumentFacts>,
    tables: &WorkspaceBindingTables,
    a: int,
) -> Seq<SiteEntry>
    decreases a,
{
    if a <= 0 {
        Seq::empty()
    } else {
        all_sites(docs, tables, a - 1) + doc_sites(docs, tables, a - 1, docs[a - 1].references@.len() as int)
    }
}

/// The references among the first `r` of document `a` that the generic rules report: those
/// of a document without syntax errors whose outcome has a diagnostic code.
pub open spec fn doc_reported(
    docs: Seq<&WorkspaceSemanticDocumentFacts>,
    tables: &WorkspaceBindingTables,
    a: int,
    r: int,
) -> Seq<(int, int)>
    decreases r,
{
    if r <= 0 {
        Seq::empty()
    } else {
        let rest = doc_reported(docs, tables, a, r - 1);
        if !docs[a].has_syntax_errors && reference_diagnostic_code(docs[a].references@[r - 1], status_at(
            docs,
            tables,
            a,
            r - 1,
        )) is Some {
            rest.push((a, r - 1))
        } else {
            rest
        }
    }
}

/// The reported references of the first `a` documents, as (document, reference) positions.
pub open spec fn all_reported(
    docs: Seq<&WorkspaceSemanticDocumentFacts>,
    tables: &WorkspaceBindingTables,
    a: int,
) -> Seq<(int, int)>
    decreases a,
{
    if a <= 0 {
        Seq::empty()
    } else {
        all_reported(docs, tables, a - 1) + doc_reported(docs, tables, a - 1, docs[a - 1].references@.len() as int)
    }
}

/// The message the generic rules give an unresolved or ambiguous outcome, before the raw text.
pub open spec fn reference_message_prefix(status: Resolution) -> Seq<char> {
    match status {
        Resolution::Unresolved => "unresolved identifier reference: "@,
        _ => "ambiguous identifier reference: "@,
    }
}

/// `d` is the generic report for reference `p.1` of document `p.0`.
pub open spec fn reference_report_ok(
    docs: Seq<&WorkspaceSemanticDocumentFacts>,
    tables: &WorkspaceBindingTables,
    d: RuledDiagnostic,
    p: (int, int),
) -> bool {
    let reference = docs[p.0].references@[p.1];
    let status = status_at(docs, tables, p.0, p.1);
    &&& reference_diagnostic_code(reference, status) == Some(code_of(d))
    &&& d.diagnostic.message@ == reference_message_prefix(status) + reference.raw_text@
    &&& targeted_shaped(d, docs[p.0].document_id, reference.raw_text@, reference.span)
}

/// The generic reference reports of the documents, one per reported reference, in document
/// and reference order.
pub open spec fn reference_reports_ok(
    docs: Seq<&WorkspaceSemanticDocumentFacts>,
    tables: &WorkspaceBindingTables,
    s: Seq<RuledDiagnostic>,
) -> bool {
    let expected = all_reported(docs, tables, docs.len() as int);
    &&& s.len() == expected.len()
    &&& forall|m: int| 0 <= m < s.len() ==> reference_report_ok(docs, tables, #[trigger] s[m], expected[m])
}

/// Recorded resolutions by views.
pub open spec fn resolution_views(s: Seq<(ReferenceHandle, ReferenceResolutionStatus)>) -> Seq<ResolutionEntry> {
    s.map_values(|e: (ReferenceHandle, ReferenceResolutionStatus)| (e.0@, e.1@))
}

/// Recorded sites by views.
pub open spec fn site_views(s: Seq<ResolvedSite>) -> Seq<SiteEntry> {
    s.map_values(|e: ResolvedSite| (e.document@, e.kind, e.span, e.target@))
}

/// Resolves every reference of every document and records the outcomes, the resolved sites,
/// the reverse index, and the generic unresolved/ambiguous diagnostics (not for documents with
/// syntax errors).
pub fn build_reference_resolution_tables(
    documents: &[&WorkspaceSemanticDocumentFacts],
    bindings: &WorkspaceBindingTables,
) -> (r: WorkspaceReferenceTables)
    requires
        documents_well_formed(documents@),
    ensures
        resolution_views(r.resolutions@) == all_resolutions(documents@, bindings, documents@.len() as int),
        site_views(r.resolved_targets@) == all_sites(documents@, bindings, documents@.len() as int),
        reference_reports_ok(documents@, bindings, r.semantic_diagnostics@),
{
    let ghost docs = documents@;
    let mut resolutions: Vec<(ReferenceHandle, ReferenceResolutionStatus)> = Vec::new();
    let mut resolved_targets: Vec<ResolvedSite> = Vec::new();
    let mut semantic_diagnostics: Vec<RuledDiagnostic> = Vec::new();
    let mut a: usize = 0;
    while a < documents.len()
        invariant
            docs == documents@,
            documents_well_formed(docs),
            a <= docs.len(),
            resolution_views(resolutions@) == all_resolutions(docs, bindings, a as int),
            site_views(resolved_targets@) == all_sites(docs, bindings, a as int),
            semantic_diagnostics@.len() == all_reported(docs, bindings, a as int).len(),
            forall|m: int|
                0 <= m < semantic_diagnostics@.len() ==> reference_report_ok(
                    docs,
                    bindings,
                    #[trigger] semantic_diagnostics@[m],
                    all_reported(docs, bindings, a as int)[m],
                ),
        decreases docs.len() - a,
    {
        let document = documents[a];
        assert(facts_well_formed(document));
        let mut i: usize = 0;
        while i < document.references.len()
            invariant
                docs == documents@,
                documents_well_formed(docs),
                0 <= a < docs.len(),
                document == docs[a as int],
                facts_well_formed(document),
                i <= document.references@.len(),
                resolution_views(resolutions@) == all_resolutions(docs, bindings, a as int) + doc_resolutions(
                    docs,
                    bindings,
                    a as int,
                    i as int,
                ),
                site_views(resolved_targets@) == all_sites(docs, bindings, a as int) + doc_sites(
                    docs,
                    bindings,
                    a as int,
                    i as int,
                ),
                semantic_diagnostics@.len() == all_reported(docs, bindings, a as int).len() + doc_reported(
                    docs,
                    bindings,
                    a as int,
                    i as int,
                ).len(),
                forall|m: int|
                    0 <= m < semantic_diagnostics@.len() ==> reference_report_ok(
                        docs,
                        bindings,
                        #[trigger] semantic_diagnostics@[m],
                        (all_reported(docs, bindings, a as int) + doc_reported(docs, bindings, a as int, i as int))[m],
                    ),
            decreases document.references.len() - i,
        {
            let reference = &document.references[i];
            assert(reference.span.start_byte <= reference.span.end_byte);
            assert(reference.containing_symbol matches Some(c) ==> c.0 < document.symbols@.len());
            let handle = ReferenceHandle::new(document.document_id.clone(), i);
            let status = resolve_reference_status(document, reference, bindings, documents);
            assert(status@ == status_at(docs, bindings, a as int, i as int)) by {
                reveal(status_at);
            }
            let ghost d0 = semantic_diagnostics@;
            if !document.has_syntax_errors && emits_generic_reference_diagnostics(reference) {
                match &status {
                    ReferenceResolutionStatus::UnresolvedNoMatch => {
                        semantic_diagnostics.push(
                            RuledDiagnostic::unresolved_reference(
                                &document.document_id,
                                reference.raw_text.as_str(),
                                reference.span,
                            ),
                        );
                    },
                    ReferenceResolutionStatus::AmbiguousDuplicateBinding
                    | ReferenceResolutionStatus::AmbiguousElementVsRelationship => {
                        semantic_diagnostics.push(
                            RuledDiagnostic::ambiguous_reference(
                                &document.document_id,
                                reference.raw_text.as_str(),
                                reference.span,
                            ),
                        );
                    },
                    _ => {},
                }
            }
            proof {
                let a0 = a as int;
                let i0 = i as int;
                let before = all_reported(docs, bindings, a0) + doc_reported(docs, bindings, a0, i0);
                let after = all_reported(docs, bindings, a0) + doc_reported(docs, bindings, a0, i0 + 1);
                if !docs[a0].has_syntax_errors && reference_diagnostic_code(
                    docs[a0].references@[i0],
                    status_at(docs, bindings, a0, i0),
                ) is Some {
                    assert(after =~= before.push((a0, i0)));
                    assert(semantic_diagnostics@.len() == d0.len() + 1);
                } else {
                    assert(after =~= before);
                    assert(semantic_diagnostics@ == d0);
                }
                assert forall|m: int| 0 <= m < semantic_diagnostics@.len() implies reference_report_ok(
                    docs,
                    bindings,
                    #[trigger] semantic_diagnostics@[m],
                    after[m],
                ) by {
                    if m < d0.len() {
                        assert(semantic_diagnostics@[m] == d0[m]);
                        assert(after[m] == before[m]);
                    }
                }
            }
            let ghost res0 = resolutions@;
            let ghost sites0 = resolved_targets@;
            match &status {
                ReferenceResolutionStatus::Resolved(target) => {
                    resolved_targets.push(
                        ResolvedSite {
                            document: document.document_id.clone(),
                            kind: reference.kind,
                            span: reference.span,
                            target: target.clone(),
                        },
                    );
                },
                _ => {},
            }
            resolutions.push((handle, status));
            proof {
                let a0 = a as int;
                let i0 = i as int;
                assert(resolution_views(resolutions@) =~= resolution_views(res0).push(
                    ((docs[a0].document_id@, i), status_at(docs, bindings, a0, i0)),
                ));
                assert(all_resolutions(docs, bindings, a0) + doc_resolutions(docs, bindings, a0, i0 + 1)
                    =~= (all_resolutions(docs, bindings, a0) + doc_resolutions(docs, bindings, a0, i0)).push(
                    ((docs[a0].document_id@, i), status_at(docs, bindings, a0, i0)),
                ));
                match status_at(docs, bindings, a0, i0) {
                    Resolution::Resolved(h) => {
                        let e = (docs[a0].document_id@, docs[a0].references@[i0].kind, docs[a0].references@[i0].span, h);
                        assert(site_views(resolved_targets@) =~= site_views(sites0).push(e));
                        assert(all_sites(docs, bindings, a0) + doc_sites(docs, bindings, a0, i0 + 1)
                            =~= (all_sites(docs, bindings, a0) + doc_sites(docs, bindings, a0, i0)).push(e));
                    },
                    _ => {
                        assert(resolved_targets@ == sites0);
                        assert(doc_sites(docs, bindings, a0, i0 + 1) == doc_sites(docs, bindings, a0, i0));
                    },
                }
            }
            i = i + 1;
        }
        proof {
            assert(all_resolutions(docs, bindings, a + 1) == all_resolutions(docs, bindings, a as int)
                + doc_resolutions(docs, bindings, a as int, document.references@.len() as int));
            assert(all_sites(docs, bindings, a + 1) == all_sites(docs, bindings, a as int) + doc_sites(
                docs,
                bindings,
                a as int,
                document.references@.len() as int,
            ));
            assert(all_reported(docs, bindings, a + 1) == all_reported(docs, bindings, a as int) + doc_reported(
                docs,
                bindings,
                a as int,
                document.references@.len() as int,
            ));
        }
        a = a + 1;
    }
    WorkspaceReferenceTables { resolutions, resolved_targets, semantic_diagnostics }
}

} // verus!
