//! View diagnostics: which elements each view family may show, filtered views over
//! auto-laid-out bases, and the dynamic-view rules.

use vstd::prelude::*;

use crate::diagnostics::{code_of, RuledDiagnostic};
use crate::semantic::{ValueFact, ViewFact, ViewKind};
use crate::span::TextSpan;
use crate::symbols::{ReferenceKind, SymbolKind};
use crate::workspace::index::WorkspaceSemanticDocumentFacts;
use crate::workspace::references::{site_views, ResolvedSite, SiteEntry};
use crate::workspace::relationships::{
    is_view_element_kind_allowed, resolved_reference_target, site_target, symbol_for_handle, symbol_of,
    view_allows,
};

verus! {

/// `d` reports, under the invalid-view-element code, that its target cannot be added to the view.
pub open spec fn invalid_element_report(d: RuledDiagnostic) -> bool {
    &&& code_of(d) == "semantic.invalid-view-element"@
    &&& (d.diagnostic.target_text matches Some(t) && d.diagnostic.message@ == "The element \""@ + t@
        + "\" can not be added to this type of view"@)
}

/// `d` reports, under the filtered-view code, that the view its target names lays out
/// automatically.
pub open spec fn filtered_layout_report(d: RuledDiagnostic) -> bool {
    &&& code_of(d) == "semantic.filtered-view-autolayout-mismatch"@
    &&& (d.diagnostic.target_text matches Some(t) && d.diagnostic.message@ == "The view \""@ + t@
        + "\" has automatic layout enabled - this is not supported for filtered views"@)
}


/// The document, span, and named target a targeted diagnostic reports.
pub open spec fn targeted_site(d: RuledDiagnostic) -> (Seq<char>, TextSpan, Seq<char>) {
    (
        match d.diagnostic.document {
            Some(x) => x@,
            None => Seq::empty(),
        },
        d.diagnostic.span,
        match d.diagnostic.target_text {
            Some(t) => t@,
            None => Seq::empty(),
        },
    )
}

/// The targeted sites of a list of diagnostics.
pub open spec fn targeted_sites(s: Seq<RuledDiagnostic>) -> Seq<(Seq<char>, TextSpan, Seq<char>)> {
    s.map_values(|d: RuledDiagnostic| targeted_site(d))
}

/// Whether a view family's element membership is checked.
pub open spec fn membership_checked(kind: ViewKind) -> bool {
    kind == ViewKind::SystemLandscape || kind == ViewKind::SystemContext || kind == ViewKind::Container
        || kind == ViewKind::Component
}

/// Whether a view value names an element the view's family may not show.
pub open spec fn value_invalid(
    docs: Seq<&WorkspaceSemanticDocumentFacts>,
    sites: Seq<SiteEntry>,
    a: int,
    view_kind: ViewKind,
    value: ValueFact,
    role: ReferenceKind,
) -> bool {
    match site_target(sites, docs[a].document_id@, role, value.span) {
        None => false,
        Some(t) => match symbol_of(docs, t) {
            None => false,
            Some(s) => s.kind != SymbolKind::Relationship && !view_allows(view_kind, s.kind),
        },
    }
}

/// The invalid values among the first `n` of `values`.
pub open spec fn invalid_values(
    docs: Seq<&WorkspaceSemanticDocumentFacts>,
    sites: Seq<SiteEntry>,
    a: int,
    view_kind: ViewKind,
    values: Seq<ValueFact>,
    role: ReferenceKind,
    n: int,
) -> Seq<(Seq<char>, TextSpan, Seq<char>)>
    decreases n,
{
    if n <= 0 {
        Seq::empty()
    } else {
        let rest = invalid_values(docs, sites, a, view_kind, values, role, n - 1);
        if value_invalid(docs, sites, a, view_kind, values[n - 1], role) {
            rest.push((docs[a].document_id@, values[n - 1].span, values[n - 1].normalized_text@))
        } else {
            rest
        }
    }
}

/// The invalid include and animation values of one view.
pub open spec fn view_invalid_values(
    docs: Seq<&WorkspaceSemanticDocumentFacts>,
    sites: Seq<SiteEntry>,
    a: int,
    view: ViewFact,
) -> Seq<(Seq<char>, TextSpan, Seq<char>)> {
    if membership_checked(view.kind) {
        invalid_values(docs, sites, a, view.kind, view.include_values@, ReferenceKind::ViewInclude, view.include_values@.len() as int)
            + invalid_values(
            docs,
            sites,
            a,
            view.kind,
            view.animation_values@,
            ReferenceKind::ViewAnimation,
            view.animation_values@.len() as int,
        )
    } else {
        Seq::empty()
    }
}

/// The invalid values of the first `n` views of document `a`.
pub open spec fn doc_invalid_values(
    docs: Seq<&WorkspaceSemanticDocumentFacts>,
    sites: Seq<SiteEntry>,
    a: int,
    n: int,
) -> Seq<(Seq<char>, TextSpan, Seq<char>)>
    decreases n,
{
    if n <= 0 || docs[a].has_syntax_errors {
        Seq::empty()
    } else {
        doc_invalid_values(docs, sites, a, n - 1) + view_invalid_values(docs, sites, a, docs[a].view_facts@[n - 1])
    }
}

/// The invalid values of the first `a` documents.
pub open spec fn all_invalid_values(
    docs: Seq<&WorkspaceSemanticDocumentFacts>,
    sites: Seq<SiteEntry>,
    a: int,
) -> Seq<(Seq<char>, TextSpan, Seq<char>)>
    decreases a,
{
    if a <= 0 {
        Seq::empty()
    } else {
        all_invalid_values(docs, sites, a - 1) + doc_invalid_values(docs, sites, a - 1, docs[a - 1].view_facts@.len() as int)
    }
}

/// Reports each value of `values` that names an element the view's family may not show.
fn push_invalid_view_value_diagnostics(
    documents: &[&WorkspaceSemanticDocumentFacts],
    a: usize,
    view_kind: ViewKind,
    values: &Vec<ValueFact>,
    role: ReferenceKind,
    sites: &Vec<ResolvedSite>,
    diagnostics: &mut Vec<RuledDiagnostic>,
)
    requires
        a < documents@.len(),
        forall|m: int|
            0 <= m < old(diagnostics)@.len() ==> invalid_element_report(#[trigger] old(diagnostics)@[m]),
    ensures
        targeted_sites(final(diagnostics)@) == targeted_sites(old(diagnostics)@) + invalid_values(
            documents@,
            site_views(sites@),
            a as int,
            view_kind,
            values@,
            role,
            values@.len() as int,
        ),
        forall|m: int|
            0 <= m < final(diagnostics)@.len() ==> invalid_element_report(#[trigger] final(diagnostics)@[m]),
{
    let ghost docs = documents@;
    let ghost sv = site_views(sites@);
    let ghost start = targeted_sites(diagnostics@);
    let document = documents[a];
    let mut i: usize = 0;
    while i < values.len()
        invariant
            docs == documents@,
            sv == site_views(sites@),
            a < docs.len(),
            document == docs[a as int],
            i <= values@.len(),
            start == targeted_sites(old(diagnostics)@),
            targeted_sites(diagnostics@) == start + invalid_values(docs, sv, a as int, view_kind, values@, role, i as int),
            forall|m: int|
                0 <= m < diagnostics@.len() ==> invalid_element_report(#[trigger] diagnostics@[m]),
        decreases values.len() - i,
    {
        let value = &values[i];
        let ghost before = diagnostics@;
        let invalid = match resolved_reference_target(&document.document_id, role, value.span, sites) {
            None => false,
            Some(target) => match symbol_for_handle(documents, &target) {
                None => false,
                Some(symbol) => !(symbol.kind == SymbolKind::Relationship) && !is_view_element_kind_allowed(
                    view_kind,
                    symbol.kind,
                ),
            },
        };
        if invalid {
            diagnostics.push(
                RuledDiagnostic::invalid_view_element(
                    &document.document_id,
                    value.normalized_text.as_str(),
                    value.span,
                ),
            );
            proof {
                assert(targeted_sites(diagnostics@) =~= targeted_sites(before).push(
                    (docs[a as int].document_id@, value.span, value.normalized_text@),
                ));
                assert forall|m: int| 0 <= m < diagnostics@.len() implies invalid_element_report(#[trigger] diagnostics@[m]) by {
                    if m < before.len() {
                        assert(diagnostics@[m] == before[m]);
                    }
                }
            }
        }
        proof {
            assert(values@[i as int] == *value);
            assert(value_invalid(docs, sv, a as int, view_kind, *value, role) == invalid);
            if invalid {
                assert(start + invalid_values(docs, sv, a as int, view_kind, values@, role, i + 1) =~= (start
                    + invalid_values(docs, sv, a as int, view_kind, values@, role, i as int)).push(
                    (docs[a as int].document_id@, value.span, value.normalized_text@),
                ));
            }
        }
        i = i + 1;
    }
}

/// Reports each include or animation value of a landscape, context, container, or component
/// view that names an element that view family may not show.
pub fn invalid_view_element_diagnostics(
    documents: &[&WorkspaceSemanticDocumentFacts],
    sites: &Vec<ResolvedSite>,
) -> (r: Vec<RuledDiagnostic>)
    ensures
        targeted_sites(r@) == all_invalid_values(documents@, site_views(sites@), documents@.len() as int),
        forall|m: int| 0 <= m < r@.len() ==> code_of(#[trigger] r@[m]) == "semantic.invalid-view-element"@,
        forall|m: int| 0 <= m < r@.len() ==> invalid_element_report(#[trigger] r@[m]),
{
    let ghost docs = documents@;
    let ghost sv = site_views(sites@);
    let mut diagnostics: Vec<RuledDiagnostic> = Vec::new();
    let mut a: usize = 0;
    while a < documents.len()
        invariant
            docs == documents@,
            sv == site_views(sites@),
            a <= docs.len(),
            targeted_sites(diagnostics@) == all_invalid_values(docs, sv, a as int),
            forall|m: int|
                0 <= m < diagnostics@.len() ==> invalid_element_report(#[trigger] diagnostics@[m]),
        decreases docs.len() - a,
    {
        let document = documents[a];
        let mut v: usize = 0;
        if document.has_syntax_errors {
            v = document.view_facts.len();
        }
        while v < document.view_facts.len() && !document.has_syntax_errors
            invariant
                docs == documents@,
                sv == site_views(sites@),
                0 <= a < docs.len(),
                document == docs[a as int],
                v <= document.view_facts@.len(),
                targeted_sites(diagnostics@) == all_invalid_values(docs, sv, a as int) + doc_invalid_values(
                    docs,
                    sv,
                    a as int,
                    v as int,
                ),
                forall|m: int|
                    0 <= m < diagnostics@.len() ==> invalid_element_report(#[trigger] diagnostics@[m]),
            decreases document.view_facts.len() - v,
        {
            let view = &document.view_facts[v];
            let ghost before = targeted_sites(diagnostics@);
            let checked = match view.kind {
                ViewKind::SystemLandscape | ViewKind::SystemContext | ViewKind::Container | ViewKind::Component => true,
                _ => false,
            };
            if checked {
                push_invalid_view_value_diagnostics(
                    documents,
                    a,
                    view.kind,
                    &view.include_values,
                    ReferenceKind::ViewInclude,
                    sites,
                    &mut diagnostics,
                );
                push_invalid_view_value_diagnostics(
                    documents,
                    a,
                    view.kind,
                    &view.animation_values,
                    ReferenceKind::ViewAnimation,
                    sites,
                    &mut diagnostics,
                );
            }
            proof {
                assert(document.view_facts@[v as int] == *view);
                let extra = view_invalid_values(docs, sv, a as int, *view);
                if checked {
                    assert(targeted_sites(diagnostics@) =~= before + extra);
                } else {
                    assert(extra =~= Seq::<(Seq<char>, TextSpan, Seq<char>)>::empty());
                    assert(targeted_sites(diagnostics@) =~= before + extra);
                }
                assert(all_invalid_values(docs, sv, a as int) + doc_invalid_values(docs, sv, a as int, v + 1)
                    =~= all_invalid_values(docs, sv, a as int) + doc_invalid_values(docs, sv, a as int, v as int)
                    + extra);
            }
            v = v + 1;
        }
        proof {
            assert(all_invalid_values(docs, sv, a + 1) == all_invalid_values(docs, sv, a as int)
                + doc_invalid_values(docs, sv, a as int, document.view_facts@.len() as int));
        }
        a = a + 1;
    }
    diagnostics
}


/// The positions `(document, view)` of the keyed views among the first `n` views of document
/// `a` whose key is `k` (none for a document with syntax errors).
pub open spec fn doc_keyed_views(docs: Seq<&WorkspaceSemanticDocumentFacts>, a: int, k: Seq<char>, n: int) -> Seq<
    (int, int),
>
    decreases n,
{
    if n <= 0 || docs[a].has_syntax_errors {
        Seq::empty()
    } else {
        let rest = doc_keyed_views(docs, a, k, n - 1);
        match docs[a].view_facts@[n - 1].key {
            Some(key) => if key.normalized_text@ == k {
                rest.push((a, n - 1))
            } else {
                rest
            },
            None => rest,
        }
    }
}

/// The positions of every keyed view with key `k` in the first `a` documents.
pub open spec fn keyed_views(docs: Seq<&WorkspaceSemanticDocumentFacts>, k: Seq<char>, a: int) -> Seq<(int, int)>
    decreases a,
{
    if a <= 0 {
        Seq::empty()
    } else {
        keyed_views(docs, k, a - 1) + doc_keyed_views(docs, a - 1, k, docs[a - 1].view_facts@.len() as int)
    }
}

proof fn lemma_doc_keyed_views_bounds(docs: Seq<&WorkspaceSemanticDocumentFacts>, a: int, k: Seq<char>, n: int)
    requires
        0 <= a < docs.len(),
        n <= docs[a].view_facts@.len(),
    ensures
        forall|i: int|
            0 <= i < doc_keyed_views(docs, a, k, n).len() ==> (#[trigger] doc_keyed_views(docs, a, k, n)[i]).0 == a
                && 0 <= doc_keyed_views(docs, a, k, n)[i].1 < docs[a].view_facts@.len(),
    decreases n,
{
    if n > 0 && !docs[a].has_syntax_errors {
        lemma_doc_keyed_views_bounds(docs, a, k, n - 1);
        let rest = doc_keyed_views(docs, a, k, n - 1);
        assert forall|i: int| 0 <= i < doc_keyed_views(docs, a, k, n).len() implies (
        #[trigger] doc_keyed_views(docs, a, k, n)[i]).0 == a && 0 <= doc_keyed_views(docs, a, k, n)[i].1
            < docs[a].view_facts@.len() by {
            if i < rest.len() {
                assert(doc_keyed_views(docs, a, k, n)[i] == rest[i]);
            }
        }
    }
}

proof fn lemma_keyed_views_bounds(docs: Seq<&WorkspaceSemanticDocumentFacts>, k: Seq<char>, a: int)
    requires
        a <= docs.len(),
    ensures
        forall|i: int|
            0 <= i < keyed_views(docs, k, a).len() ==> 0 <= (#[trigger] keyed_views(docs, k, a)[i]).0 < a && 0
                <= keyed_views(docs, k, a)[i].1 < docs[keyed_views(docs, k, a)[i].0].view_facts@.len(),
    decreases a,
{
    if a > 0 {
        lemma_keyed_views_bounds(docs, k, a - 1);
        lemma_doc_keyed_views_bounds(docs, a - 1, k, docs[a - 1].view_facts@.len() as int);
        let p = keyed_views(docs, k, a - 1);
        let q = doc_keyed_views(docs, a - 1, k, docs[a - 1].view_facts@.len() as int);
        assert forall|i: int| 0 <= i < keyed_views(docs, k, a).len() implies 0 <= (#[trigger] keyed_views(
            docs,
            k,
            a,
        )[i]).0 < a && 0 <= keyed_views(docs, k, a)[i].1 < docs[keyed_views(docs, k, a)[i].0].view_facts@.len() by {
            if i < p.len() {
                assert(keyed_views(docs, k, a)[i] == p[i]);
            } else {
                assert(keyed_views(docs, k, a)[i] == q[i - p.len()]);
            }
        }
    }
}

/// Whether a filtered view's base view, named by a unique key, enables automatic layout.
pub open spec fn filtered_base_autolayout(docs: Seq<&WorkspaceSemanticDocumentFacts>, view: ViewFact) -> bool {
    &&& view.kind == ViewKind::Filtered
    &&& view.base_key is Some
    &&& {
        let ps = keyed_views(docs, view.base_key->0.normalized_text@, docs.len() as int);
        &&& ps.len() == 1
        &&& {
            let bd = crate::workspace::index::find_doc_index(docs, docs[ps[0].0].document_id@);
            &&& bd >= 0
            &&& !docs[bd].has_syntax_errors
            &&& ps[0].1 < docs[bd].view_facts@.len()
            &&& docs[bd].view_facts@[ps[0].1].auto_layout is Some
        }
    }
}

/// The filtered-view reports among the first `n` views of document `a`.
pub open spec fn doc_filtered_reports(docs: Seq<&WorkspaceSemanticDocumentFacts>, a: int, n: int) -> Seq<
    (Seq<char>, TextSpan, Seq<char>),
>
    decreases n,
{
    if n <= 0 || docs[a].has_syntax_errors {
        Seq::empty()
    } else {
        let rest = doc_filtered_reports(docs, a, n - 1);
        let view = docs[a].view_facts@[n - 1];
        if filtered_base_autolayout(docs, view) {
            rest.push((docs[a].document_id@, view.base_key->0.span, view.base_key->0.normalized_text@))
        } else {
            rest
        }
    }
}

/// The filtered-view reports of the first `a` documents.
pub open spec fn all_filtered_reports(docs: Seq<&WorkspaceSemanticDocumentFacts>, a: int) -> Seq<
    (Seq<char>, TextSpan, Seq<char>),
>
    decreases a,
{
    if a <= 0 {
        Seq::empty()
    } else {
        all_filtered_reports(docs, a - 1) + doc_filtered_reports(docs, a - 1, docs[a - 1].view_facts@.len() as int)
    }
}

/// Finds every keyed view whose key is `key`, as `(document index, view index)` positions.
fn views_with_key(documents: &[&WorkspaceSemanticDocumentFacts], key: &str) -> (r: Vec<(usize, usize)>)
    ensures
        r@.len() == keyed_views(documents@, key@, documents@.len() as int).len(),
        forall|i: int|
            0 <= i < r@.len() ==> (#[trigger] r@[i]).0 as int == keyed_views(
                documents@,
                key@,
                documents@.len() as int,
            )[i].0 && r@[i].1 as int == keyed_views(documents@, key@, documents@.len() as int)[i].1,
{
    let ghost docs = documents@;
    let mut out: Vec<(usize, usize)> = Vec::new();
    let mut a: usize = 0;
    while a < documents.len()
        invariant
            docs == documents@,
            a <= docs.len(),
            out@.len() == keyed_views(docs, key@, a as int).len(),
            forall|i: int|
                0 <= i < out@.len() ==> (#[trigger] out@[i]).0 as int == keyed_views(docs, key@, a as int)[i].0
                    && out@[i].1 as int == keyed_views(docs, key@, a as int)[i].1,
        decreases docs.len() - a,
    {
        let document = documents[a];
        let mut v: usize = 0;
        if document.has_syntax_errors {
            v = document.view_facts.len();
        }
        while v < document.view_facts.len() && !document.has_syntax_errors
            invariant
                docs == documents@,
                0 <= a < docs.len(),
                document == docs[a as int],
                v <= document.view_facts@.len(),
                out@.len() == (keyed_views(docs, key@, a as int) + doc_keyed_views(docs, a as int, key@, v as int)).len(),
                forall|i: int|
                    0 <= i < out@.len() ==> (#[trigger] out@[i]).0 as int == (keyed_views(docs, key@, a as int)
                        + doc_keyed_views(docs, a as int, key@, v as int))[i].0 && out@[i].1 as int == (
                    keyed_views(docs, key@, a as int) + doc_keyed_views(docs, a as int, key@, v as int))[i].1,
            decreases document.view_facts.len() - v,
        {
            let ghost before = out@;
            let ghost prev = keyed_views(docs, key@, a as int) + doc_keyed_views(docs, a as int, key@, v as int);
            assert(document.view_facts@[v as int] == document.view_facts[v as int]);
            match &document.view_facts[v].key {
                Some(k) => {
                    if crate::text::str_eq(k.normalized_text.as_str(), key) {
                        out.push((a, v));
                        assert(keyed_views(docs, key@, a as int) + doc_keyed_views(docs, a as int, key@, v + 1)
                            =~= prev.push((a as int, v as int)));
                        assert forall|i: int| 0 <= i < out@.len() implies (#[trigger] out@[i]).0 as int
                            == prev.push((a as int, v as int))[i].0 && out@[i].1 as int == prev.push(
                            (a as int, v as int),
                        )[i].1 by {
                            if i < before.len() {
                                assert(out@[i] == before[i]);
                            }
                        }
                    } else {
                        assert(keyed_views(docs, key@, a as int) + doc_keyed_views(docs, a as int, key@, v + 1)
                            =~= prev);
                    }
                },
                None => {
                    assert(keyed_views(docs, key@, a as int) + doc_keyed_views(docs, a as int, key@, v + 1) =~= prev);
                },
            }
            v = v + 1;
        }
        assert(keyed_views(docs, key@, a + 1) == keyed_views(docs, key@, a as int) + doc_keyed_views(
            docs,
            a as int,
            key@,
            document.view_facts@.len() as int,
        ));
        a = a + 1;
    }
    out
}

/// Reports each filtered view whose base view, named by a unique key, enables automatic
/// layout, with the base view's `autoLayout` as secondary context.
pub fn filtered_view_autolayout_diagnostics(documents: &[&WorkspaceSemanticDocumentFacts]) -> (r: Vec<
    RuledDiagnostic,
>)
    ensures
        targeted_sites(r@) == all_filtered_reports(documents@, documents@.len() as int),
        forall|m: int|
            0 <= m < r@.len() ==> filtered_layout_report(#[trigger] r@[m]),
        forall|m: int|
            0 <= m < r@.len() ==> code_of(#[trigger] r@[m]) == "semantic.filtered-view-autolayout-mismatch"@,
{
    let ghost docs = documents@;
    let mut diagnostics: Vec<RuledDiagnostic> = Vec::new();
    let mut a: usize = 0;
    while a < documents.len()
        invariant
            docs == documents@,
            a <= docs.len(),
            targeted_sites(diagnostics@) == all_filtered_reports(docs, a as int),
            forall|m: int|
                0 <= m < diagnostics@.len() ==> filtered_layout_report(#[trigger] diagnostics@[m]),
        decreases docs.len() - a,
    {
        let document = documents[a];
        let mut v: usize = 0;
        if document.has_syntax_errors {
            v = document.view_facts.len();
        }
        while v < document.view_facts.len() && !document.has_syntax_errors
            invariant
                docs == documents@,
                0 <= a < docs.len(),
                document == docs[a as int],
                v <= document.view_facts@.len(),
                targeted_sites(diagnostics@) == all_filtered_reports(docs, a as int) + doc_filtered_reports(
                    docs,
                    a as int,
                    v as int,
                ),
                forall|m: int|
                    0 <= m < diagnostics@.len() ==> filtered_layout_report(#[trigger] diagnostics@[m]),
            decreases document.view_facts.len() - v,
        {
            let view = &document.view_facts[v];
            let ghost before = diagnostics@;
            let ghost prev = all_filtered_reports(docs, a as int) + doc_filtered_reports(docs, a as int, v as int);
            let mut reported = false;
            if view.kind == ViewKind::Filtered {
                match &view.base_key {
                    Some(base_key) => {
                        let positions = views_with_key(documents, base_key.normalized_text.as_str());
                        proof {
                            lemma_keyed_views_bounds(docs, base_key.normalized_text@, docs.len() as int);
                        }
                        if positions.len() == 1 {
                            let (ba, bv) = positions[0];
                            match crate::workspace::index::find_document(documents, &documents[ba].document_id) {
                                Some(base_document) => {
                                    if !base_document.has_syntax_errors && bv < base_document.view_facts.len() {
                                        match &base_document.view_facts[bv].auto_layout {
                                            Some(auto_layout) => {
                                                let mut diagnostic = RuledDiagnostic::filtered_view_autolayout_mismatch(
                                                    &document.document_id,
                                                    base_key.normalized_text.as_str(),
                                                    base_key.span,
                                                );
                                                diagnostic.annotate(
                                                    crate::workspace::index::secondary_annotation(
                                                        &document.document_id,
                                                        &base_document.document_id,
                                                        auto_layout.span,
                                                        "base view enables automatic layout here".to_owned(),
                                                    ),
                                                );
                                                diagnostics.push(diagnostic);
                                                reported = true;
                                            },
                                            None => {},
                                        }
                                    }
                                },
                                None => {},
                            }
                        }
                    },
                    None => {},
                }
            }
            proof {
                assert(document.view_facts@[v as int] == *view);
                assert(reported == filtered_base_autolayout(docs, *view));
                if reported {
                    assert(targeted_sites(diagnostics@) =~= targeted_sites(before).push(
                        (docs[a as int].document_id@, view.base_key->0.span, view.base_key->0.normalized_text@),
                    ));
                    assert(all_filtered_reports(docs, a as int) + doc_filtered_reports(docs, a as int, v + 1)
                        =~= prev.push(
                        (docs[a as int].document_id@, view.base_key->0.span, view.base_key->0.normalized_text@),
                    ));
                    assert forall|m: int| 0 <= m < diagnostics@.len() implies filtered_layout_report(#[trigger] diagnostics@[m]) by {
                        if m < before.len() {
                            assert(diagnostics@[m] == before[m]);
                        }
                    }
                } else {
                    assert(all_filtered_reports(docs, a as int) + doc_filtered_reports(docs, a as int, v + 1)
                        =~= prev);
                }
            }
            v = v + 1;
        }
        proof {
            assert(all_filtered_reports(docs, a + 1) == all_filtered_reports(docs, a as int) + doc_filtered_reports(
                docs,
                a as int,
                document.view_facts@.len() as int,
            ));
        }
        a = a + 1;
    }
    diagnostics
}

} // verus!
