//! Structural rules of one DSL definition: repeated top-level sections and a configured scope
//! that the model's depth contradicts.

use vstd::prelude::*;

use crate::diagnostics::{code_of, RuledDiagnostic};
use crate::semantic::{ConfigurationScopeFact, WorkspaceScope, WorkspaceSectionKind};
use crate::snapshot::DocumentId;
use crate::span::TextSpan;
use crate::symbols::{Symbol, SymbolKind};
use crate::workspace::bindings::parents_precede;
use crate::workspace::deployment::{diagnostic_site, diagnostic_sites};
use crate::workspace::index::{documents_well_formed, facts_well_formed, note_at, secondary_annotation, WorkspaceSemanticDocumentFacts};

verus! {

/// Every occurrence of a `kind` section among the first `n` sections of document `a`.
pub open spec fn doc_sections(
    docs: Seq<&WorkspaceSemanticDocumentFacts>,
    kind: WorkspaceSectionKind,
    a: int,
    n: int,
) -> Seq<(Seq<char>, TextSpan)>
    decreases n,
{
    if n <= 0 || docs[a].has_syntax_errors {
        Seq::empty()
    } else {
        let rest = doc_sections(docs, kind, a, n - 1);
        if docs[a].workspace_sections@[n - 1].kind == kind {
            rest.push((docs[a].document_id@, docs[a].workspace_sections@[n - 1].span))
        } else {
            rest
        }
    }
}

/// Every occurrence of a `kind` section in the first `a` documents (none from documents with
/// syntax errors), in order.
pub open spec fn section_occurrences(docs: Seq<&WorkspaceSemanticDocumentFacts>, kind: WorkspaceSectionKind, a: int) -> Seq<
    (Seq<char>, TextSpan),
>
    decreases a,
{
    if a <= 0 {
        Seq::empty()
    } else {
        section_occurrences(docs, kind, a - 1) + doc_sections(docs, kind, a - 1, docs[a - 1].workspace_sections@.len() as int)
    }
}

/// Collects every occurrence of a `kind` section.
fn collect_section_occurrences(documents: &[&WorkspaceSemanticDocumentFacts], kind: WorkspaceSectionKind) -> (r: Vec<
    (DocumentId, TextSpan),
>)
    ensures
        r@.map_values(|o: (DocumentId, TextSpan)| (o.0@, o.1)) == section_occurrences(
            documents@,
            kind,
            documents@.len() as int,
        ),
{
    let ghost docs = documents@;
    let mut out: Vec<(DocumentId, TextSpan)> = Vec::new();
    let mut a: usize = 0;
    while a < documents.len()
        invariant
            docs == documents@,
            a <= docs.len(),
            out@.map_values(|o: (DocumentId, TextSpan)| (o.0@, o.1)) == section_occurrences(docs, kind, a as int),
        decreases docs.len() - a,
    {
        let document = documents[a];
        let mut s: usize = 0;
        if document.has_syntax_errors {
            s = document.workspace_sections.len();
        }
        while s < document.workspace_sections.len() && !document.has_syntax_errors
            invariant
                docs == documents@,
                0 <= a < docs.len(),
                document == docs[a as int],
                s <= document.workspace_sections@.len(),
                out@.map_values(|o: (DocumentId, TextSpan)| (o.0@, o.1)) == section_occurrences(docs, kind, a as int)
                    + doc_sections(docs, kind, a as int, s as int),
            decreases document.workspace_sections.len() - s,
        {
            let ghost before = out@;
            let fact = document.workspace_sections[s];
            if fact.kind == kind {
                out.push((document.document_id.clone(), fact.span));
                assert(out@.map_values(|o: (DocumentId, TextSpan)| (o.0@, o.1)) =~= before.map_values(
                    |o: (DocumentId, TextSpan)| (o.0@, o.1),
                ).push((docs[a as int].document_id@, fact.span)));
            }
            assert(section_occurrences(docs, kind, a as int) + doc_sections(docs, kind, a as int, s + 1) =~= if fact.kind
                == kind {
                (section_occurrences(docs, kind, a as int) + doc_sections(docs, kind, a as int, s as int)).push(
                    (docs[a as int].document_id@, fact.span),
                )
            } else {
                section_occurrences(docs, kind, a as int) + doc_sections(docs, kind, a as int, s as int)
            });
            s = s + 1;
        }
        assert(section_occurrences(docs, kind, a + 1) == section_occurrences(docs, kind, a as int) + doc_sections(
            docs,
            kind,
            a as int,
            document.workspace_sections@.len() as int,
        ));
        a = a + 1;
    }
    out
}

/// `d` reports a repeated `name` section and points back at the `first` one.
pub open spec fn repeated_report_ok(d: RuledDiagnostic, name: Seq<char>, first: (Seq<char>, TextSpan)) -> bool {
    &&& d.diagnostic.message@ == "multiple "@ + name + " sections are not permitted in a DSL definition"@
    &&& d.diagnostic.annotations@.len() == 1
    &&& note_at(d.diagnostic.annotations@[0], diagnostic_site(d).0, first.0, first.1, "first "@ + name + " section here"@)
}

/// Reports every occurrence of a `kind` section after the first, pointing back at the first.
pub fn push_repeated_workspace_section_diagnostics(
    section_kind: WorkspaceSectionKind,
    section_name: &str,
    documents: &[&WorkspaceSemanticDocumentFacts],
    diagnostics: &mut Vec<RuledDiagnostic>,
)
    requires
        forall|m: int|
            0 <= m < old(diagnostics)@.len() ==> code_of(#[trigger] old(diagnostics)@[m])
                == "semantic.repeated-workspace-section"@,
    ensures
        diagnostic_sites(final(diagnostics)@) == diagnostic_sites(old(diagnostics)@) + (if section_occurrences(
            documents@,
            section_kind,
            documents@.len() as int,
        ).len() == 0 {
            Seq::empty()
        } else {
            section_occurrences(documents@, section_kind, documents@.len() as int).drop_first()
        }),
        forall|m: int|
            0 <= m < final(diagnostics)@.len() ==> code_of(#[trigger] final(diagnostics)@[m])
                == "semantic.repeated-workspace-section"@,
        forall|m: int| 0 <= m < old(diagnostics)@.len() ==> #[trigger] final(diagnostics)@[m] == old(diagnostics)@[m],
        forall|m: int|
            old(diagnostics)@.len() <= m < final(diagnostics)@.len() ==> repeated_report_ok(
                #[trigger] final(diagnostics)@[m],
                section_name@,
                section_occurrences(documents@, section_kind, documents@.len() as int)[0],
            ),
{
    let occurrences = collect_section_occurrences(documents, section_kind);
    let ghost ov = occurrences@.map_values(|o: (DocumentId, TextSpan)| (o.0@, o.1));
    let ghost start = diagnostic_sites(diagnostics@);
    if occurrences.len() == 0 {
        assert(diagnostic_sites(diagnostics@) =~= start + Seq::<(Seq<char>, TextSpan)>::empty());
        return;
    }
    let first_document = &occurrences[0].0;
    let first_span = occurrences[0].1;
    let mut i: usize = 1;
    assert(diagnostic_sites(diagnostics@) =~= start + ov.subrange(1, 1));
    while i < occurrences.len()
        invariant
            1 <= i <= occurrences@.len(),
            ov == occurrences@.map_values(|o: (DocumentId, TextSpan)| (o.0@, o.1)),
            start == diagnostic_sites(old(diagnostics)@),
            diagnostic_sites(diagnostics@) == start + ov.subrange(1, i as int),
            forall|m: int|
                0 <= m < diagnostics@.len() ==> code_of(#[trigger] diagnostics@[m])
                    == "semantic.repeated-workspace-section"@,
            diagnostics@.len() >= old(diagnostics)@.len(),
            forall|m: int| 0 <= m < old(diagnostics)@.len() ==> #[trigger] diagnostics@[m] == old(diagnostics)@[m],
            ov.len() > 0,
            *first_document == occurrences@[0].0,
            first_span == occurrences@[0].1,
            forall|m: int|
                old(diagnostics)@.len() <= m < diagnostics@.len() ==> repeated_report_ok(
                    #[trigger] diagnostics@[m],
                    section_name@,
                    ov[0],
                ),
        decreases occurrences.len() - i,
    {
        let ghost before = diagnostics@;
        let document = &occurrences[i].0;
        let span = occurrences[i].1;
        let mut diagnostic = RuledDiagnostic::repeated_workspace_section(document, section_name, span);
        let message = crate::text::cat3("first ", section_name, " section here");
        diagnostic.annotate(secondary_annotation(document, first_document, first_span, message));
        diagnostics.push(diagnostic);
        proof {
            assert(diagnostic_sites(diagnostics@) =~= diagnostic_sites(before).push((document@, span)));
            assert(ov.subrange(1, i + 1) =~= ov.subrange(1, i as int).push(ov[i as int]));
            assert forall|m: int| 0 <= m < diagnostics@.len() implies code_of(#[trigger] diagnostics@[m])
                == "semantic.repeated-workspace-section"@ by {
                if m < before.len() {
                    assert(diagnostics@[m] == before[m]);
                }
            }
            assert forall|m: int| 0 <= m < old(diagnostics)@.len() implies #[trigger] diagnostics@[m] == old(diagnostics)@[m] by {
                assert(diagnostics@[m] == before[m]);
            }
            assert forall|m: int| old(diagnostics)@.len() <= m < diagnostics@.len() implies repeated_report_ok(
                #[trigger] diagnostics@[m],
                section_name@,
                ov[0],
            ) by {
                if m < before.len() {
                    assert(diagnostics@[m] == before[m]);
                }
            }
        }
        i = i + 1;
    }
    assert(ov.subrange(1, ov.len() as int) =~= ov.drop_first());
}

/// What the structure rule reports: every `model` and every `views` section after the first,
/// all under the repeated-section code.
pub open spec fn structure_reports_ok(definition_documents: Seq<&WorkspaceSemanticDocumentFacts>, r: Seq<RuledDiagnostic>) -> bool {
    let n = definition_documents.len() as int;
    let models = section_occurrences(definition_documents, WorkspaceSectionKind::Model, n);
    let views = section_occurrences(definition_documents, WorkspaceSectionKind::Views, n);
    let model_reports = if models.len() == 0 {
        0
    } else {
        models.len() - 1
    };
    &&& forall|m: int| 0 <= m < r.len() ==> code_of(#[trigger] r[m]) == "semantic.repeated-workspace-section"@
    &&& forall|m: int| 0 <= m < model_reports ==> repeated_report_ok(#[trigger] r[m], "model"@, models[0])
    &&& forall|m: int| model_reports <= m < r.len() ==> repeated_report_ok(#[trigger] r[m], "views"@, views[0])
    &&& diagnostic_sites(r) == (if models.len() == 0 {
        Seq::empty()
    } else {
        models.drop_first()
    }) + (if views.len() == 0 {
        Seq::empty()
    } else {
        views.drop_first()
    })
}

/// Reports repeated `model` and `views` sections within one DSL definition.
pub fn workspace_structure_diagnostics(definition_documents: &[&WorkspaceSemanticDocumentFacts]) -> (r: Vec<
    RuledDiagnostic,
>)
    ensures
        structure_reports_ok(definition_documents@, r@),
{
    let mut diagnostics: Vec<RuledDiagnostic> = Vec::new();
    assert(diagnostic_sites(diagnostics@) =~= Seq::<(Seq<char>, TextSpan)>::empty());
    push_repeated_workspace_section_diagnostics(
        WorkspaceSectionKind::Model,
        "model",
        definition_documents,
        &mut diagnostics,
    );
    push_repeated_workspace_section_diagnostics(
        WorkspaceSectionKind::Views,
        "views",
        definition_documents,
        &mut diagnostics,
    );
    diagnostics
}

/// Index of the first document that declares a configuration scope, or -1.
pub open spec fn first_scoped_document(docs: Seq<&WorkspaceSemanticDocumentFacts>) -> int
    decreases docs.len(),
{
    if docs.len() == 0 {
        -1
    } else if docs[0].configuration_scopes@.len() > 0 {
        0
    } else {
        let r = first_scoped_document(docs.drop_first());
        if r < 0 {
            -1
        } else {
            r + 1
        }
    }
}

/// The workspace's effective scope: the last scope statement of the first document that has one.
pub fn effective_workspace_scope(documents: &[&WorkspaceSemanticDocumentFacts]) -> (r: Option<
    (DocumentId, ConfigurationScopeFact),
>)
    ensures
        match r {
            Some(x) => {
                let i = first_scoped_document(documents@);
                &&& 0 <= i < documents@.len()
                &&& x.0 == documents@[i].document_id
                &&& x.1 == documents@[i].configuration_scopes@.last()
            },
            None => first_scoped_document(documents@) < 0,
        },
{
    let ghost docs = documents@;
    let mut i: usize = 0;
    assert(docs.skip(0) =~= docs);
    while i < documents.len()
        invariant
            i <= docs.len(),
            docs == documents@,
            first_scoped_document(docs) == (if first_scoped_document(docs.skip(i as int)) < 0 {
                -1
            } else {
                first_scoped_document(docs.skip(i as int)) + i
            }),
        decreases documents.len() - i,
    {
        assert(docs.skip(i as int)[0] == docs[i as int]);
        assert(docs.skip(i as int).drop_first() =~= docs.skip(i + 1));
        let document = documents[i];
        let n = document.configuration_scopes.len();
        if n > 0 {
            return Some((document.document_id.clone(), document.configuration_scopes[n - 1].clone()));
        }
        i = i + 1;
    }
    assert(docs.skip(i as int).len() == 0);
    None
}

/// Whether a symbol kind owns scope-violating children.
pub open spec fn is_scope_owner_kind(kind: SymbolKind) -> bool {
    kind == SymbolKind::SoftwareSystem || kind == SymbolKind::Container
}

/// The nearest software-system or container ancestor of symbol `i`, by index.
pub open spec fn scope_owner_above(symbols: Seq<Symbol>, i: int) -> Option<int>
    decreases i,
{
    if !(0 <= i < symbols.len()) {
        None
    } else {
        match symbols[i].parent {
            None => None,
            Some(p) => if 0 <= p.0 < i {
                if is_scope_owner_kind(symbols[p.0 as int].kind) {
                    Some(p.0 as int)
                } else {
                    scope_owner_above(symbols, p.0 as int)
                }
            } else {
                None
            },
        }
    }
}

pub proof fn lemma_scope_owner_above_bounds(symbols: Seq<Symbol>, i: int)
    ensures
        scope_owner_above(symbols, i) matches Some(o) ==> 0 <= o < i,
    decreases i,
{
    if 0 <= i < symbols.len() {
        match symbols[i].parent {
            Some(p) => if 0 <= p.0 < i && !is_scope_owner_kind(symbols[p.0 as int].kind) {
                lemma_scope_owner_above_bounds(symbols, p.0 as int);
            },
            None => {},
        }
    }
}

/// Finds the nearest software-system or container ancestor of symbol `i`.
pub fn scope_violation_owner(symbols: &[Symbol], i: usize) -> (r: Option<usize>)
    requires
        parents_precede(symbols@),
        i < symbols@.len(),
    ensures
        match r {
            Some(o) => scope_owner_above(symbols@, i as int) == Some(o as int) && o < i,
            None => scope_owner_above(symbols@, i as int) is None,
        },
{
    proof {
        lemma_scope_owner_above_bounds(symbols@, i as int);
    }
    let mut cur: usize = i;
    loop
        invariant
            parents_precede(symbols@),
            cur < symbols@.len(),
            scope_owner_above(symbols@, i as int) == scope_owner_above(symbols@, cur as int),
            scope_owner_above(symbols@, i as int) matches Some(o) ==> 0 <= o < i,
        decreases cur,
    {
        let parent = symbols[cur].parent;
        assert(symbols@[cur as int].parent == parent);
        match parent {
            None => {
                return None;
            },
            Some(p) => {
                let kind = symbols[p.0].kind;
                if kind == SymbolKind::SoftwareSystem || kind == SymbolKind::Container {
                    return Some(p.0);
                }
                cur = p.0;
            },
        }
    }
}

/// The child kind a scope forbids, with its plural label.
pub open spec fn forbidden_child(scope: WorkspaceScope) -> Option<(SymbolKind, Seq<char>)> {
    match scope {
        WorkspaceScope::Landscape => Some((SymbolKind::Container, "containers"@)),
        WorkspaceScope::SoftwareSystem => Some((SymbolKind::Component, "components"@)),
        _ => None,
    }
}

/// The label of a scope that forbids some child kind.
pub open spec fn scope_label(scope: WorkspaceScope) -> Seq<char> {
    match scope {
        WorkspaceScope::Landscape => "landscape"@,
        WorkspaceScope::SoftwareSystem => "software system"@,
        WorkspaceScope::Container => "container"@,
        WorkspaceScope::Component => "component"@,
        WorkspaceScope::Other(raw) => raw@,
    }
}

/// The label of an owner symbol.
pub open spec fn owner_label(kind: SymbolKind) -> Seq<char> {
    if kind == SymbolKind::SoftwareSystem {
        "software system"@
    } else if kind == SymbolKind::Container {
        "container"@
    } else {
        "element"@
    }
}

fn workspace_scope_label(scope: &WorkspaceScope) -> (r: &str)
    ensures
        r@ == scope_label(*scope),
{
    match scope {
        WorkspaceScope::Landscape => "landscape",
        WorkspaceScope::SoftwareSystem => "software system",
        WorkspaceScope::Container => "container",
        WorkspaceScope::Component => "component",
        WorkspaceScope::Other(raw) => raw.as_str(),
    }
}

fn scope_violation_owner_label(kind: SymbolKind) -> (r: &'static str)
    ensures
        r@ == owner_label(kind),
{
    match kind {
        SymbolKind::SoftwareSystem => "software system",
        SymbolKind::Container => "container",
        _ => "element",
    }
}

/// The owners reported among the first `n` symbols of document `a`: each owner of a child of
/// the forbidden kind, once per document, in order of first offending child.
pub open spec fn doc_scope_owners(
    docs: Seq<&WorkspaceSemanticDocumentFacts>,
    child: SymbolKind,
    a: int,
    n: int,
) -> Seq<int>
    decreases n,
{
    if n <= 0 || docs[a].has_syntax_errors {
        Seq::empty()
    } else {
        let rest = doc_scope_owners(docs, child, a, n - 1);
        if docs[a].symbols@[n - 1].kind == child {
            match scope_owner_above(docs[a].symbols@, n - 1) {
                Some(o) => if rest.contains(o) {
                    rest
                } else {
                    rest.push(o)
                },
                None => rest,
            }
        } else {
            rest
        }
    }
}

/// The `(document, owner)` violations of the first `a` documents.
pub open spec fn scope_violations(
    docs: Seq<&WorkspaceSemanticDocumentFacts>,
    child: SymbolKind,
    a: int,
) -> Seq<(int, int)>
    decreases a,
{
    if a <= 0 {
        Seq::empty()
    } else {
        scope_violations(docs, child, a - 1) + doc_scope_owners(docs, child, a - 1, docs[a - 1].symbols@.len() as int).map_values(
            |o: int| (a - 1, o),
        )
    }
}

/// The message reporting one violation.
pub open spec fn scope_message(scope: WorkspaceScope, owner: Symbol, plural: Seq<char>) -> Seq<char> {
    "workspace is "@ + scope_label(scope) + " scoped, but the "@ + owner_label(owner.kind) + " named "@
        + owner.display_name@ + " has "@ + plural
}

/// What the scope rule reports: under the scope configured by the first scoped document
/// (definition documents first), one diagnostic per symbol of a kind that scope forbids.
pub open spec fn scope_reports_ok(
    definition_documents: Seq<&WorkspaceSemanticDocumentFacts>,
    instance_documents: Seq<&WorkspaceSemanticDocumentFacts>,
    r: Seq<RuledDiagnostic>,
) -> bool {
    &&& forall|m: int| 0 <= m < r.len() ==> code_of(#[trigger] r[m]) == "semantic.workspace-scope-mismatch"@
    &&& ({
        let d = first_scoped_document(definition_documents);
        let i = first_scoped_document(instance_documents);
        let scope_fact = if d >= 0 {
            Some((definition_documents[d].document_id@, definition_documents[d].configuration_scopes@.last()))
        } else if i >= 0 {
            Some((instance_documents[i].document_id@, instance_documents[i].configuration_scopes@.last()))
        } else {
            None
        };
        match scope_fact {
            None => r.len() == 0,
            Some((doc, fact)) => match forbidden_child(fact.scope) {
                None => r.len() == 0,
                Some((child, plural)) => {
                    let vs = scope_violations(instance_documents, child, instance_documents.len() as int);
                    &&& r.len() == vs.len()
                    &&& forall|m: int|
                        0 <= m < vs.len() ==> {
                            let owner = instance_documents[vs[m].0].symbols@[vs[m].1];
                            &&& diagnostic_site(#[trigger] r[m]) == (doc, fact.span)
                            &&& r[m].diagnostic.message@ == scope_message(fact.scope, owner, plural)
                        }
                },
            },
        }
    })
}

/// Reports each software system or container whose children contradict the configured scope:
/// a landscape-scoped workspace may not have containers, a software-system-scoped one may not
/// have components. Every report sits on the scope statement.
pub fn workspace_scope_diagnostics(
    definition_documents: &[&WorkspaceSemanticDocumentFacts],
    instance_documents: &[&WorkspaceSemanticDocumentFacts],
) -> (r: Vec<RuledDiagnostic>)
    requires
        documents_well_formed(instance_documents@),
    ensures
        scope_reports_ok(definition_documents@, instance_documents@, r@),
{
    let scope = match effective_workspace_scope(definition_documents) {
        Some(s) => Some(s),
        None => effective_workspace_scope(instance_documents),
    };
    let (scope_document, scope_fact) = match scope {
        Some(s) => s,
        None => {
            return Vec::new();
        },
    };
    let (child, plural): (SymbolKind, &str) = match scope_fact.scope {
        WorkspaceScope::Landscape => (SymbolKind::Container, "containers"),
        WorkspaceScope::SoftwareSystem => (SymbolKind::Component, "components"),
        _ => {
            return Vec::new();
        },
    };
    let ghost docs = instance_documents@;
    let ghost vs_all = scope_violations(docs, child, docs.len() as int);
    let mut diagnostics: Vec<RuledDiagnostic> = Vec::new();
    let mut a: usize = 0;
    while a < instance_documents.len()
        invariant
            docs == instance_documents@,
            documents_well_formed(docs),
            a <= docs.len(),
            forbidden_child(scope_fact.scope) == Some((child, plural@)),
            diagnostics@.len() == scope_violations(docs, child, a as int).len(),
            forall|m: int|
                0 <= m < diagnostics@.len() ==> {
                    let v = scope_violations(docs, child, a as int)[m];
                    let owner = docs[v.0].symbols@[v.1];
                    &&& code_of(#[trigger] diagnostics@[m]) == "semantic.workspace-scope-mismatch"@
                    &&& diagnostic_site(diagnostics@[m]) == (scope_document@, scope_fact.span)
                    &&& diagnostics@[m].diagnostic.message@ == scope_message(scope_fact.scope, owner, plural@)
                },
        decreases docs.len() - a,
    {
        let document = instance_documents[a];
        assert(facts_well_formed(document));
        let mut owners: Vec<usize> = Vec::new();
        let mut k: usize = 0;
        if document.has_syntax_errors {
            k = document.symbols.len();
        }
        let ghost base = diagnostics@;
        let ghost prior = scope_violations(docs, child, a as int);
        while k < document.symbols.len() && !document.has_syntax_errors
            invariant
                docs == instance_documents@,
                0 <= a < docs.len(),
                document == docs[a as int],
                facts_well_formed(document),
                k <= document.symbols@.len(),
                forbidden_child(scope_fact.scope) == Some((child, plural@)),
                prior == scope_violations(docs, child, a as int),
                base.len() == prior.len(),
                owners@.map_values(|o: usize| o as int) == doc_scope_owners(docs, child, a as int, k as int),
                forall|j: int| 0 <= j < owners@.len() ==> (#[trigger] owners@[j]) < document.symbols@.len(),
                diagnostics@.len() == base.len() + owners@.len(),
                forall|m: int| 0 <= m < base.len() ==> #[trigger] diagnostics@[m] == base[m],
                forall|m: int|
                    0 <= m < base.len() ==> {
                        let v = prior[m];
                        let owner = docs[v.0].symbols@[v.1];
                        &&& code_of(#[trigger] base[m]) == "semantic.workspace-scope-mismatch"@
                        &&& diagnostic_site(base[m]) == (scope_document@, scope_fact.span)
                        &&& base[m].diagnostic.message@ == scope_message(scope_fact.scope, owner, plural@)
                    },
                forall|j: int|
                    0 <= j < owners@.len() ==> {
                        let owner = document.symbols@[owners@[j] as int];
                        &&& code_of(#[trigger] diagnostics@[base.len() + j]) == "semantic.workspace-scope-mismatch"@
                        &&& diagnostic_site(diagnostics@[base.len() + j]) == (scope_document@, scope_fact.span)
                        &&& diagnostics@[base.len() + j].diagnostic.message@ == scope_message(
                            scope_fact.scope,
                            owner,
                            plural@,
                        )
                    },
            decreases document.symbols.len() - k,
        {
            let ghost ov0 = owners@.map_values(|o: usize| o as int);
            let ghost d0 = diagnostics@;
            if document.symbols[k].kind == child {
                match scope_violation_owner(document.symbols.as_slice(), k) {
                    Some(o) => {
                        let mut seen = false;
                        let mut j: usize = 0;
                        while j < owners.len()
                            invariant
                                j <= owners@.len(),
                                seen == exists|x: int| 0 <= x < j && owners@[x] == o,
                            decreases owners.len() - j,
                        {
                            if owners[j] == o {
                                seen = true;
                            }
                            j = j + 1;
                        }
                        proof {
                            assert(seen == ov0.contains(o as int)) by {
                                if seen {
                                    let x = choose|x: int| 0 <= x < owners@.len() && owners@[x] == o;
                                    assert(ov0[x] == o as int);
                                }
                                if ov0.contains(o as int) {
                                    let x = choose|x: int| 0 <= x < ov0.len() && ov0[x] == o as int;
                                    assert(owners@[x] == o);
                                }
                            }
                        }
                        if !seen {
                            let owner = &document.symbols[o];
                            let mut message = crate::text::cat3(
                                "workspace is ",
                                workspace_scope_label(&scope_fact.scope),
                                " scoped, but the ",
                            );
                            message.append(scope_violation_owner_label(owner.kind));
                            message.append(" named ");
                            message.append(owner.display_name.as_str());
                            message.append(" has ");
                            message.append(plural);
                            let mut diagnostic = RuledDiagnostic::workspace_scope_mismatch(
                                &scope_document,
                                message,
                                scope_fact.span,
                            );
                            let annotation_message = crate::text::cat3(
                                scope_violation_owner_label(owner.kind),
                                " named ",
                                owner.display_name.as_str(),
                            );
                            let mut annotation_message = annotation_message;
                            annotation_message.append(" has ");
                            annotation_message.append(plural);
                            diagnostic.annotate(
                                secondary_annotation(&scope_document, &document.document_id, owner.span, annotation_message),
                            );
                            owners.push(o);
                            diagnostics.push(diagnostic);
                            proof {
                                assert(owners@.map_values(|o: usize| o as int) =~= ov0.push(o as int));
                                assert forall|m: int| 0 <= m < base.len() implies #[trigger] diagnostics@[m]
                                    == base[m] by {
                                    assert(diagnostics@[m] == d0[m]);
                                }
                            }
                        }
                    },
                    None => {},
                }
            }
            proof {
                assert(document.symbols@[k as int] == document.symbols[k as int]);
            }
            k = k + 1;
        }
        proof {
            let n = document.symbols@.len() as int;
            let ov = owners@.map_values(|o: usize| o as int);
            let add = doc_scope_owners(docs, child, a as int, n).map_values(|o: int| (a as int, o));
            assert(scope_violations(docs, child, a + 1) == prior + add);
            assert forall|m: int| 0 <= m < diagnostics@.len() implies {
                let v = scope_violations(docs, child, a + 1)[m];
                let owner = docs[v.0].symbols@[v.1];
                &&& code_of(#[trigger] diagnostics@[m]) == "semantic.workspace-scope-mismatch"@
                &&& diagnostic_site(diagnostics@[m]) == (scope_document@, scope_fact.span)
                &&& diagnostics@[m].diagnostic.message@ == scope_message(scope_fact.scope, owner, plural@)
            } by {
                if m < base.len() {
                    assert(diagnostics@[m] == base[m]);
                    assert(scope_violations(docs, child, a + 1)[m] == prior[m]);
                } else {
                    let j = m - base.len();
                    assert(scope_violations(docs, child, a + 1)[m] == add[j]);
                    assert(add[j] == (a as int, ov[j]));
                    assert(ov[j] == owners@[j] as int);
                    assert(diagnostics@[base.len() + j] == diagnostics@[m]);
                }
            }
        }
        a = a + 1;
    }
    diagnostics
}

} // verus!
