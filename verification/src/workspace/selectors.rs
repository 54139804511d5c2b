//! Diagnostics for `!element` selectors that name no binding, or more than one.

use vstd::prelude::*;

use crate::diagnostics::{code_of, RuledDiagnostic};
use crate::includes::DirectiveValueKind;
use crate::semantic::ElementDirectiveFact;
use crate::span::TextSpan;
use crate::workspace::index::{documents_well_formed, facts_well_formed, WorkspaceBindingTables, WorkspaceSemanticDocumentFacts};
use crate::workspace::model::{ReferenceResolutionStatus, Resolution};
use crate::workspace::resolve::{first_selector_resolution, resolve_element_selector_target_handle, selector_candidates};

verus! {

/// What an `!element` selector is reported for.
#[derive(PartialEq, Eq, Structural)]
pub enum SelectorFinding {
    /// No binding matches any candidate spelling.
    Unresolved,
    /// The first matching spelling names duplicate or competing bindings.
    Ambiguous,
}

/// Whether a selector's value form is one the binding tables can answer.
pub open spec fn selector_form_checked(kind: DirectiveValueKind) -> bool {
    kind == DirectiveValueKind::BareValue || kind == DirectiveValueKind::Identifier
}

/// What one `!element` directive of a document is reported for, if anything.
pub open spec fn selector_finding(
    doc: &WorkspaceSemanticDocumentFacts,
    dir: ElementDirectiveFact,
    bindings: &WorkspaceBindingTables,
) -> Option<SelectorFinding> {
    if !selector_form_checked(dir.target.value_kind) {
        None
    } else {
        match first_selector_resolution(bindings, selector_candidates(doc, dir, bindings)) {
            Resolution::Resolved(_) => None,
            Resolution::Unresolved => Some(SelectorFinding::Unresolved),
            _ => Some(SelectorFinding::Ambiguous),
        }
    }
}

/// The code and message prefix each selector finding is reported under.
pub open spec fn selector_code(f: SelectorFinding) -> Seq<char> {
    match f {
        SelectorFinding::Unresolved => "semantic.unresolved-element-selector"@,
        SelectorFinding::Ambiguous => "semantic.ambiguous-reference"@,
    }
}

/// The message each selector finding reports for a selector text.
pub open spec fn selector_message(f: SelectorFinding, text: Seq<char>) -> Seq<char> {
    match f {
        SelectorFinding::Unresolved => "unresolved !element selector target: "@ + text,
        SelectorFinding::Ambiguous => "ambiguous identifier reference: "@ + text,
    }
}

/// What a reported diagnostic says: document, span, target text, code and message.
pub open spec fn selector_site(d: RuledDiagnostic) -> (Seq<char>, TextSpan, Seq<char>, Seq<char>, Seq<char>) {
    (
        match d.diagnostic.document {
            Some(x) => x@,
            None => Seq::empty(),
        },
        d.diagnostic.span,
        match d.diagnostic.target_text {
            Some(t) => t@,
            None => Seq::empty(),
        },
        code_of(d),
        d.diagnostic.message@,
    )
}

/// The sites of a list of diagnostics.
pub open spec fn selector_sites(s: Seq<RuledDiagnostic>) -> Seq<(Seq<char>, TextSpan, Seq<char>, Seq<char>, Seq<char>)> {
    s.map_values(|d: RuledDiagnostic| selector_site(d))
}

/// The reports of the first `n` directives of one document.
pub open spec fn doc_selector_reports(
    doc: &WorkspaceSemanticDocumentFacts,
    bindings: &WorkspaceBindingTables,
    n: int,
) -> Seq<(Seq<char>, TextSpan, Seq<char>, Seq<char>, Seq<char>)>
    decreases n,
{
    if n <= 0 {
        Seq::empty()
    } else {
        let before = doc_selector_reports(doc, bindings, n - 1);
        let dir = doc.element_directives@[n - 1];
        match selector_finding(doc, dir, bindings) {
            Some(f) => before.push(
                (
                    doc.document_id@,
                    dir.target.span,
                    dir.target.normalized_text@,
                    selector_code(f),
                    selector_message(f, dir.target.normalized_text@),
                ),
            ),
            None => before,
        }
    }
}

/// The reports of the first `a` documents; documents with syntax errors report nothing.
pub open spec fn all_selector_reports(
    docs: Seq<&WorkspaceSemanticDocumentFacts>,
    bindings: &WorkspaceBindingTables,
    a: int,
) -> Seq<(Seq<char>, TextSpan, Seq<char>, Seq<char>, Seq<char>)>
    decreases a,
{
    if a <= 0 {
        Seq::empty()
    } else {
        let doc = docs[a - 1];
        all_selector_reports(docs, bindings, a - 1) + if doc.has_syntax_errors {
            Seq::empty()
        } else {
            doc_selector_reports(doc, bindings, doc.element_directives@.len() as int)
        }
    }
}

/// Reports every checked `!element` selector that resolves to no binding, or ambiguously,
/// document by document and directive by directive.
pub fn element_selector_diagnostics(documents: &[&WorkspaceSemanticDocumentFacts], bindings: &WorkspaceBindingTables) -> (r:
    Vec<RuledDiagnostic>)
    requires
        documents_well_formed(documents@),
    ensures
        selector_sites(r@) == all_selector_reports(documents@, bindings, documents@.len() as int),
{
    let ghost docs = documents@;
    let mut diagnostics: Vec<RuledDiagnostic> = Vec::new();
    let mut a: usize = 0;
    while a < documents.len()
        invariant
            docs == documents@,
            a <= docs.len(),
            documents_well_formed(docs),
            selector_sites(diagnostics@) == all_selector_reports(docs, bindings, a as int),
        decreases docs.len() - a,
    {
        let document = documents[a];
        assert(facts_well_formed(docs[a as int]));
        if !document.has_syntax_errors {
            let mut k: usize = 0;
            let ghost start = diagnostics@;
            while k < document.element_directives.len()
                invariant
                    docs == documents@,
                    a < docs.len(),
                    document == docs[a as int],
                    facts_well_formed(document),
                    k <= document.element_directives@.len(),
                    selector_sites(diagnostics@) == selector_sites(start) + doc_selector_reports(
                        document,
                        bindings,
                        k as int,
                    ),
                decreases document.element_directives@.len() - k,
            {
                let directive = &document.element_directives[k];
                let checked = match directive.target.value_kind {
                    DirectiveValueKind::BareValue | DirectiveValueKind::Identifier => true,
                    _ => false,
                };
                let ghost prev = diagnostics@;
                if checked {
                    assert(directive.span.start_byte <= directive.span.end_byte);
                    let status = resolve_element_selector_target_handle(document, directive, bindings);
                    match status {
                        ReferenceResolutionStatus::Resolved(_) => {},
                        ReferenceResolutionStatus::UnresolvedNoMatch => {
                            let d = RuledDiagnostic::unresolved_element_selector(
                                &document.document_id,
                                directive.target.normalized_text.as_str(),
                                directive.target.span,
                            );
                            diagnostics.push(d);
                        },
                        _ => {
                            let d = RuledDiagnostic::ambiguous_reference(
                                &document.document_id,
                                directive.target.normalized_text.as_str(),
                                directive.target.span,
                            );
                            diagnostics.push(d);
                        },
                    }
                }
                proof {
                    assert(selector_sites(diagnostics@) =~= selector_sites(start) + doc_selector_reports(
                        document,
                        bindings,
                        k + 1,
                    )) by {
                        if diagnostics@.len() > prev.len() {
                            assert(diagnostics@ =~= prev.push(diagnostics@.last()));
                            assert(selector_sites(diagnostics@) =~= selector_sites(prev).push(
                                selector_site(diagnostics@.last()),
                            ));
                        } else {
                            assert(diagnostics@ =~= prev);
                        }
                    }
                }
                k = k + 1;
            }
        }
        proof {
            assert(all_selector_reports(docs, bindings, a + 1) =~= all_selector_reports(docs, bindings, a as int)
                + if docs[a as int].has_syntax_errors {
                Seq::empty()
            } else {
                doc_selector_reports(docs[a as int], bindings, docs[a as int].element_directives@.len() as int)
            });
        }
        a = a + 1;
    }
    diagnostics
}

} // verus!
