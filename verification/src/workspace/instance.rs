//! One assembled workspace instance: its binding tables, symbols, reference resolutions and
//! semantic diagnostics, and the index that answers queries over them.

use vstd::prelude::*;
use vstd::seq_lib::{to_multiset_insert, to_multiset_remove};

use crate::diagnostics::{code_of, RuledDiagnostic};
use crate::snapshot::DocumentId;
use crate::rule::{lemma_seq_lt_irreflexive, lemma_seq_lt_trans, seq_lt, str_lt};
use crate::workspace::bindings::ElementIdentifierMode;
use crate::workspace::model::{handle_lt, SymbolHandle, WorkspaceSymbolFact};
use crate::workspace::tables::{lemma_handle_lt_irreflexive, lemma_handle_lt_trans};
use crate::workspace::deployment::{all_violations, deployment_parent_child_relationship_diagnostics, diagnostic_sites, violation_reports_ok};
use crate::workspace::dynamic::{
    all_relationship_reports,
    all_scope_reports,
    dynamic_view_relationship_diagnostics,
    dynamic_view_scope_redundancy_diagnostics,
    message_sites,
    scope_redundancy_report,
};
use crate::symbols::IdentifierMode;
use crate::workspace::index::{
    binding_reports_ok,
    bound_handles_are_declarations,
    declares,
    declared_at,
    tables_hold,
    BindingFamily,
    binding_tables_ok,
    dup_positions,
    dup_report_ok,
    dup_reports_ok,
    dup_sites,
    other_sites,
    build_binding_tables,
    documents_well_formed,
    WorkspaceBindingTables,
    WorkspaceSemanticDocumentFacts,
};
use crate::workspace::model::{ReferenceHandle, ReferenceResolutionStatus, WorkspaceInstanceId};
use crate::workspace::references::{all_reported, all_resolutions, build_reference_resolution_tables, reference_report_ok, reference_reports_ok, resolution_views};
use crate::workspace::resources::{
    all_documentation_reports,
    all_image_reports,
    resource_semantic_diagnostics,
    resource_sites,
    PathStatus,
};
use crate::workspace::selectors::{all_selector_reports, element_selector_diagnostics, selector_sites};
use crate::workspace::structure::{
    scope_reports_ok,
    structure_reports_ok,
    workspace_scope_diagnostics,
    workspace_structure_diagnostics,
};
use crate::workspace::targets::{has_ref, index_references_by_target, indexed, refs_sorted, resolved_to, target_index_ok};
use crate::workspace::ordering::{diags_sorted, insert_diagnostic_sorted};
use crate::workspace::references::{all_sites, site_views, ResolvedSite, SiteEntry};
use crate::workspace::relationships::{all_declared, collect_declared_relationships};
use crate::workspace::views::{
    filtered_layout_report,
    invalid_element_report,
    all_filtered_reports,
    all_invalid_values,
    filtered_view_autolayout_diagnostics,
    invalid_view_element_diagnostics,
    targeted_sites,
};

verus! {

/// Every diagnostic in `u` is reported under code `c`.
pub open spec fn all_have_code(u: Seq<RuledDiagnostic>, c: Seq<char>) -> bool {
    forall|m: int| 0 <= m < u.len() ==> code_of(#[trigger] u[m]) == c
}

/// `u` splits at `a <= b <= c` into the four view rules' reports, in rule order.
pub open spec fn view_parts_at(
    docs: Seq<&WorkspaceSemanticDocumentFacts>,
    tables: &WorkspaceBindingTables,
    sv: Seq<SiteEntry>,
    u: Seq<RuledDiagnostic>,
    a: int,
    b: int,
    c: int,
) -> bool {
    let n = docs.len() as int;
    let ds = declared_views_of(docs, tables, sv);
    &&& 0 <= a <= b <= c <= u.len()
    &&& targeted_sites(u.subrange(0, a)) == all_filtered_reports(docs, n)
    &&& all_have_code(u.subrange(0, a), "semantic.filtered-view-autolayout-mismatch"@)
    &&& targeted_sites(u.subrange(a, b)) == all_invalid_values(docs, sv, n)
    &&& all_have_code(u.subrange(a, b), "semantic.invalid-view-element"@)
    &&& targeted_sites(u.subrange(b, c)) == all_scope_reports(docs, sv, ds, n)
    &&& all_have_code(u.subrange(b, c), "semantic.dynamic-view-scope-redundancy"@)
    &&& message_sites(u.subrange(c, u.len() as int)) == all_relationship_reports(docs, sv, ds, n)
    &&& all_have_code(u.subrange(c, u.len() as int), "semantic.dynamic-view-relationship-mismatch"@)
    &&& forall|m: int| 0 <= m < a ==> filtered_layout_report(#[trigger] u[m])
    &&& forall|m: int| a <= m < b ==> invalid_element_report(#[trigger] u[m])
    &&& forall|m: int| b <= m < c ==> scope_redundancy_report(#[trigger] u[m])
}

/// The declared relationships of the documents, with their endpoints resolved by `sv`.
pub open spec fn declared_views_of(
    docs: Seq<&WorkspaceSemanticDocumentFacts>,
    tables: &WorkspaceBindingTables,
    sv: Seq<SiteEntry>,
) -> Seq<crate::workspace::relationships::DeclaredView> {
    all_declared(docs, tables, sv, docs.len() as int)
}

/// The view rules' reports: filtered-view layouts, invalid view elements, redundant dynamic
/// scopes and dynamic steps without a matching relationship, in that order.
pub open spec fn view_reports_ok(
    docs: Seq<&WorkspaceSemanticDocumentFacts>,
    tables: &WorkspaceBindingTables,
    sv: Seq<SiteEntry>,
    u: Seq<RuledDiagnostic>,
) -> bool {
    exists|a: int, b: int, c: int| #[trigger] view_parts_at(docs, tables, sv, u, a, b, c)
}

/// Runs the four view rules over the same declared relationships.
pub fn view_semantic_diagnostics(
    documents: &[&WorkspaceSemanticDocumentFacts],
    bindings: &WorkspaceBindingTables,
    sites: &Vec<ResolvedSite>,
) -> (r: Vec<RuledDiagnostic>)
    requires
        documents_well_formed(documents@),
    ensures
        view_reports_ok(documents@, bindings, site_views(sites@), r@),
{
    let declared = collect_declared_relationships(documents, bindings, sites);
    let mut diagnostics = filtered_view_autolayout_diagnostics(documents);
    let ghost p0 = diagnostics@;
    let a = diagnostics.len();
    let mut invalid = invalid_view_element_diagnostics(documents, sites);
    let ghost p1 = invalid@;
    diagnostics.append(&mut invalid);
    let b = diagnostics.len();
    let mut scopes = dynamic_view_scope_redundancy_diagnostics(documents, sites, &declared);
    let ghost p2 = scopes@;
    diagnostics.append(&mut scopes);
    let c = diagnostics.len();
    let mut mismatches = dynamic_view_relationship_diagnostics(documents, sites, &declared);
    let ghost p3 = mismatches@;
    diagnostics.append(&mut mismatches);
    proof {
        let u = diagnostics@;
        assert(u =~= p0 + p1 + p2 + p3);
        assert(u.subrange(0, a as int) =~= p0);
        assert(u.subrange(a as int, b as int) =~= p1);
        assert(u.subrange(b as int, c as int) =~= p2);
        assert(u.subrange(c as int, u.len() as int) =~= p3);
        assert forall|m: int| 0 <= m < a implies filtered_layout_report(#[trigger] u[m]) by {
            assert(u[m] == p0[m]);
        }
        assert forall|m: int| a <= m < b implies invalid_element_report(#[trigger] u[m]) by {
            assert(u[m] == p1[m - a]);
        }
        assert forall|m: int| b <= m < c implies scope_redundancy_report(#[trigger] u[m]) by {
            assert(u[m] == p2[m - b]);
        }
        assert(view_parts_at(documents@, bindings, site_views(sites@), u, a as int, b as int, c as int));
    }
    diagnostics
}

/// The deployment rules; for now, relationships between a deployment element and its own
/// ancestor or descendant.
pub fn deployment_semantic_diagnostics(
    documents: &[&WorkspaceSemanticDocumentFacts],
    bindings: &WorkspaceBindingTables,
    sites: &Vec<ResolvedSite>,
) -> (r: Vec<RuledDiagnostic>)
    requires
        documents_well_formed(documents@),
    ensures
        diagnostic_sites(r@) == all_violations(documents@, bindings, site_views(sites@), documents@.len() as int),
        all_have_code(r@, "semantic.deployment-parent-child-relationship"@),
        violation_reports_ok(documents@, bindings, site_views(sites@), r@),
{
    deployment_parent_child_relationship_diagnostics(documents, bindings, sites)
}

/// Orders diagnostics by document, start byte, rule code and message, keeping the relative
/// order of diagnostics that tie.
pub fn sort_semantic_diagnostics(diagnostics: Vec<RuledDiagnostic>) -> (r: Vec<RuledDiagnostic>)
    ensures
        diags_sorted(r@, true),
        r@.to_multiset() == diagnostics@.to_multiset(),
{
    let mut rest = diagnostics;
    let ghost all = rest@;
    let mut out: Vec<RuledDiagnostic> = Vec::new();
    proof {
        vstd::seq_lib::to_multiset_len(out@);
        vstd::multiset::lemma_multiset_empty_len(out@.to_multiset());
        assert(out@.to_multiset().add(rest@.to_multiset()) =~= all.to_multiset());
    }
    while rest.len() > 0
        invariant
            diags_sorted(out@, true),
            out@.to_multiset().add(rest@.to_multiset()) == all.to_multiset(),
        decreases rest@.len(),
    {
        let ghost before_rest = rest@;
        let ghost before_out = out@;
        let d = rest.remove(0);
        let pos = insert_diagnostic_sorted(&mut out, d, true);
        proof {
            to_multiset_remove(before_rest, 0);
            to_multiset_insert(before_out, pos as int, d);
            assert(before_rest.to_multiset().count(d) > 0) by {
                vstd::seq_lib::to_multiset_contains(before_rest, d);
            }
            assert(out@.to_multiset().add(rest@.to_multiset()) =~= before_out.to_multiset().add(
                before_rest.to_multiset(),
            ));
        }
    }
    proof {
        vstd::seq_lib::to_multiset_len(rest@);
        vstd::multiset::lemma_multiset_empty_len(rest@.to_multiset());
    }
    assert(out@.to_multiset().add(rest@.to_multiset()) =~= out@.to_multiset());
    out
}

/// A symbol fact by its canonical key and handle.
pub open spec fn symbol_entry(f: WorkspaceSymbolFact) -> (Seq<char>, (Seq<char>, usize)) {
    (f.canonical_key@, f.handle@)
}

/// Symbol order: by canonical key, then by handle.
pub open spec fn symbol_lt(a: (Seq<char>, (Seq<char>, usize)), b: (Seq<char>, (Seq<char>, usize))) -> bool {
    seq_lt(a.0, b.0) || (a.0 == b.0 && handle_lt(a.1, b.1))
}

/// No later symbol fact sorts before an earlier one.
pub open spec fn symbols_sorted(s: Seq<WorkspaceSymbolFact>) -> bool {
    forall|a: int, b: int| 0 <= a < b < s.len() ==> !symbol_lt(symbol_entry(s[b]), symbol_entry(s[a]))
}

proof fn lemma_symbol_lt_trans(
    a: (Seq<char>, (Seq<char>, usize)),
    b: (Seq<char>, (Seq<char>, usize)),
    c: (Seq<char>, (Seq<char>, usize)),
)
    requires
        symbol_lt(a, b),
        symbol_lt(b, c),
    ensures
        symbol_lt(a, c),
{
    if seq_lt(a.0, b.0) && seq_lt(b.0, c.0) {
        lemma_seq_lt_trans(a.0, b.0, c.0);
    }
    if a.0 == b.0 && b.0 == c.0 {
        lemma_seq_lt_irreflexive(a.0);
        lemma_handle_lt_trans(a.1, b.1, c.1);
    }
}

fn symbol_precedes(a: &WorkspaceSymbolFact, b: &WorkspaceSymbolFact) -> (r: bool)
    ensures
        r == symbol_lt(symbol_entry(*a), symbol_entry(*b)),
{
    if str_lt(a.canonical_key.as_str(), b.canonical_key.as_str()) {
        return true;
    }
    if !crate::text::str_eq(a.canonical_key.as_str(), b.canonical_key.as_str()) {
        return false;
    }
    a.handle.precedes(&b.handle)
}

/// The unique-table entries as key and handle.
pub open spec fn unique_entries(t: Seq<(String, SymbolHandle)>) -> Seq<(Seq<char>, (Seq<char>, usize))> {
    t.map_values(|e: (String, SymbolHandle)| (e.0@, e.1@))
}

/// The duplicate-table entries of the first `n` keys, one per handle.
pub open spec fn duplicate_entries(t: Seq<(String, Vec<SymbolHandle>)>, n: int) -> Seq<(Seq<char>, (Seq<char>, usize))>
    decreases n,
{
    if n <= 0 {
        Seq::empty()
    } else {
        duplicate_entries(t, n - 1) + t[n - 1].1@.map_values(|h: SymbolHandle| (t[n - 1].0@, h@))
    }
}

/// Every symbol the binding tables name: unique elements, deployments and relationships, then
/// every handle of their duplicate sets.
pub open spec fn table_symbol_entries(tables: &WorkspaceBindingTables) -> Seq<(Seq<char>, (Seq<char>, usize))> {
    unique_entries(tables.unique_elements@) + unique_entries(tables.unique_deployments@) + unique_entries(
        tables.unique_relationships@,
    ) + duplicate_entries(tables.duplicate_elements@, tables.duplicate_elements@.len() as int)
        + duplicate_entries(tables.duplicate_deployments@, tables.duplicate_deployments@.len() as int)
        + duplicate_entries(tables.duplicate_relationships@, tables.duplicate_relationships@.len() as int)
}

/// Inserts a symbol fact after every fact that does not sort after it.
fn insert_symbol_sorted(r: &mut Vec<WorkspaceSymbolFact>, f: WorkspaceSymbolFact) -> (pos: usize)
    requires
        symbols_sorted(old(r)@),
    ensures
        pos <= old(r)@.len(),
        final(r)@ == old(r)@.insert(pos as int, f),
        symbols_sorted(final(r)@),
{
    let mut p: usize = 0;
    while p < r.len() && !symbol_precedes(&f, &r[p])
        invariant
            p <= r@.len(),
            forall|j: int| 0 <= j < p ==> !symbol_lt(symbol_entry(f), symbol_entry(#[trigger] r@[j])),
        decreases r@.len() - p,
    {
        p = p + 1;
    }
    let ghost before = r@;
    r.insert(p, f);
    proof {
        assert forall|a: int, b: int| 0 <= a < b < r@.len() implies !symbol_lt(
            symbol_entry(r@[b]),
            symbol_entry(r@[a]),
        ) by {
            if b < p {
                assert(r@[a] == before[a] && r@[b] == before[b]);
            } else if b == p {
                assert(r@[a] == before[a]);
            } else if a < p {
                assert(r@[a] == before[a] && r@[b] == before[b - 1]);
            } else if a == p {
                assert(r@[b] == before[b - 1]);
                let e = symbol_entry(f);
                if symbol_lt(symbol_entry(before[b - 1]), e) {
                    assert(symbol_lt(e, symbol_entry(before[p as int])));
                    lemma_symbol_lt_trans(symbol_entry(before[b - 1]), e, symbol_entry(before[p as int]));
                    if b - 1 > p {
                        assert(!symbol_lt(symbol_entry(before[b - 1]), symbol_entry(before[p as int])));
                    }
                    lemma_symbol_lt_trans(e, symbol_entry(before[p as int]), e);
                    lemma_seq_lt_irreflexive(e.0);
                    lemma_handle_lt_irreflexive(e.1);
                }
            } else {
                assert(r@[a] == before[a - 1] && r@[b] == before[b - 1]);
            }
        }
    }
    p
}

/// Adds one symbol fact, keeping the facts sorted and their entries tracked.
fn add_symbol(
    r: &mut Vec<WorkspaceSymbolFact>,
    root: &DocumentId,
    key: &String,
    handle: &SymbolHandle,
    Ghost(entries): Ghost<Seq<(Seq<char>, (Seq<char>, usize))>>,
) -> (out: Ghost<Seq<(Seq<char>, (Seq<char>, usize))>>)
    requires
        symbols_sorted(old(r)@),
        entries.len() == old(r)@.len(),
        forall|j: int| 0 <= j < old(r)@.len() ==> entries[j] == symbol_entry(#[trigger] old(r)@[j]),
        forall|j: int|
            0 <= j < old(r)@.len() ==> (#[trigger] old(r)@[j]).root_document == *root && old(r)@[j].source_document
                == old(r)@[j].handle.document,
    ensures
        symbols_sorted(final(r)@),
        out@.len() == final(r)@.len(),
        forall|j: int| 0 <= j < final(r)@.len() ==> out@[j] == symbol_entry(#[trigger] final(r)@[j]),
        forall|j: int|
            0 <= j < final(r)@.len() ==> (#[trigger] final(r)@[j]).root_document == *root
                && final(r)@[j].source_document == final(r)@[j].handle.document,
        out@.to_multiset() == entries.to_multiset().insert((key@, handle@)),
{
    let f = WorkspaceSymbolFact::new(key.clone(), root.clone(), handle.document.clone(), handle.clone());
    let ghost before = r@;
    let pos = insert_symbol_sorted(r, f);
    let ghost out = entries.insert(pos as int, (key@, handle@));
    proof {
        assert forall|j: int| 0 <= j < r@.len() implies out[j] == symbol_entry(#[trigger] r@[j]) by {
            if j < pos {
                assert(r@[j] == before[j]);
            } else if j > pos {
                assert(r@[j] == before[j - 1]);
            }
        }
        assert forall|j: int| 0 <= j < r@.len() implies (#[trigger] r@[j]).root_document == *root
            && r@[j].source_document == r@[j].handle.document by {
            if j < pos {
                assert(r@[j] == before[j]);
            } else if j > pos {
                assert(r@[j] == before[j - 1]);
            }
        }
        to_multiset_insert(entries, pos as int, (key@, handle@));
    }
    Ghost(out)
}

/// The workspace symbols of one instance: one fact per symbol that the binding tables name,
/// rooted at the instance's root document, sorted by canonical key and then by handle.
pub fn build_workspace_symbols(root_document: &DocumentId, bindings: &WorkspaceBindingTables) -> (r: Vec<
    WorkspaceSymbolFact,
>)
    ensures
        symbols_sorted(r@),
        r@.map_values(|f: WorkspaceSymbolFact| symbol_entry(f)).to_multiset() == table_symbol_entries(
            bindings,
        ).to_multiset(),
        forall|j: int|
            0 <= j < r@.len() ==> (#[trigger] r@[j]).root_document == *root_document && r@[j].source_document
                == r@[j].handle.document,
{
    let mut r: Vec<WorkspaceSymbolFact> = Vec::new();
    let ghost mut entries: Seq<(Seq<char>, (Seq<char>, usize))> = Seq::empty();
    let ghost mut seen: Seq<(Seq<char>, (Seq<char>, usize))> = Seq::empty();
    proof {
        vstd::seq_lib::to_multiset_len(entries);
        vstd::multiset::lemma_multiset_empty_len(entries.to_multiset());
        vstd::seq_lib::to_multiset_len(seen);
        vstd::multiset::lemma_multiset_empty_len(seen.to_multiset());
    }
    let mut family: usize = 0;
    while family < 3
        invariant
            family <= 3,
            symbols_sorted(r@),
            entries.len() == r@.len(),
            forall|j: int| 0 <= j < r@.len() ==> entries[j] == symbol_entry(#[trigger] r@[j]),
            forall|j: int|
                0 <= j < r@.len() ==> (#[trigger] r@[j]).root_document == *root_document && r@[j].source_document
                    == r@[j].handle.document,
            entries.to_multiset() == seen.to_multiset(),
            seen == if family == 0 {
                Seq::empty()
            } else if family == 1 {
                unique_entries(bindings.unique_elements@)
            } else if family == 2 {
                unique_entries(bindings.unique_elements@) + unique_entries(bindings.unique_deployments@)
            } else {
                unique_entries(bindings.unique_elements@) + unique_entries(bindings.unique_deployments@)
                    + unique_entries(bindings.unique_relationships@)
            },
        decreases 3 - family,
    {
        let table = if family == 0 {
            &bindings.unique_elements
        } else if family == 1 {
            &bindings.unique_deployments
        } else {
            &bindings.unique_relationships
        };
        let ghost seen0 = seen;
        let mut k: usize = 0;
        while k < table.len()
            invariant
                k <= table@.len(),
                symbols_sorted(r@),
                entries.len() == r@.len(),
                forall|j: int| 0 <= j < r@.len() ==> entries[j] == symbol_entry(#[trigger] r@[j]),
                forall|j: int|
                    0 <= j < r@.len() ==> (#[trigger] r@[j]).root_document == *root_document
                        && r@[j].source_document == r@[j].handle.document,
                entries.to_multiset() == seen.to_multiset(),
                seen == seen0 + unique_entries(table@.subrange(0, k as int)),
            decreases table@.len() - k,
        {
            let next = add_symbol(&mut r, root_document, &table[k].0, &table[k].1, Ghost(entries));
            proof {
                let e = (table@[k as int].0@, table@[k as int].1@);
                vstd::seq_lib::to_multiset_build(seen, e);
                assert(unique_entries(table@.subrange(0, k + 1)) =~= unique_entries(table@.subrange(0, k as int)).push(
                    e,
                ));
                entries = next@;
                seen = seen.push(e);
            }
            k = k + 1;
        }
        proof {
            assert(table@.subrange(0, table@.len() as int) =~= table@);
        }
        family = family + 1;
    }
    let mut family: usize = 0;
    let ghost uniques = seen;
    while family < 3
        invariant
            family <= 3,
            symbols_sorted(r@),
            entries.len() == r@.len(),
            forall|j: int| 0 <= j < r@.len() ==> entries[j] == symbol_entry(#[trigger] r@[j]),
            forall|j: int|
                0 <= j < r@.len() ==> (#[trigger] r@[j]).root_document == *root_document && r@[j].source_document
                    == r@[j].handle.document,
            entries.to_multiset() == seen.to_multiset(),
            uniques == unique_entries(bindings.unique_elements@) + unique_entries(bindings.unique_deployments@)
                + unique_entries(bindings.unique_relationships@),
            seen == if family == 0 {
                uniques
            } else if family == 1 {
                uniques + duplicate_entries(bindings.duplicate_elements@, bindings.duplicate_elements@.len() as int)
            } else if family == 2 {
                uniques + duplicate_entries(bindings.duplicate_elements@, bindings.duplicate_elements@.len() as int)
                    + duplicate_entries(bindings.duplicate_deployments@, bindings.duplicate_deployments@.len() as int)
            } else {
                table_symbol_entries(bindings)
            },
        decreases 3 - family,
    {
        let table = if family == 0 {
            &bindings.duplicate_elements
        } else if family == 1 {
            &bindings.duplicate_deployments
        } else {
            &bindings.duplicate_relationships
        };
        let ghost seen0 = seen;
        let mut k: usize = 0;
        while k < table.len()
            invariant
                k <= table@.len(),
                symbols_sorted(r@),
                entries.len() == r@.len(),
                forall|j: int| 0 <= j < r@.len() ==> entries[j] == symbol_entry(#[trigger] r@[j]),
                forall|j: int|
                    0 <= j < r@.len() ==> (#[trigger] r@[j]).root_document == *root_document
                        && r@[j].source_document == r@[j].handle.document,
                entries.to_multiset() == seen.to_multiset(),
                seen == seen0 + duplicate_entries(table@, k as int),
            decreases table@.len() - k,
        {
            let key = &table[k].0;
            let handles = &table[k].1;
            let ghost seen1 = seen;
            let mut h: usize = 0;
            while h < handles.len()
                invariant
                    k < table@.len(),
                    *key == table@[k as int].0,
                    *handles == table@[k as int].1,
                    h <= handles@.len(),
                    symbols_sorted(r@),
                    entries.len() == r@.len(),
                    forall|j: int| 0 <= j < r@.len() ==> entries[j] == symbol_entry(#[trigger] r@[j]),
                    forall|j: int|
                        0 <= j < r@.len() ==> (#[trigger] r@[j]).root_document == *root_document
                            && r@[j].source_document == r@[j].handle.document,
                    entries.to_multiset() == seen.to_multiset(),
                    seen == seen1 + handles@.subrange(0, h as int).map_values(|x: SymbolHandle| (key@, x@)),
                decreases handles@.len() - h,
            {
                let next = add_symbol(&mut r, root_document, key, &handles[h], Ghost(entries));
                proof {
                    let e = (key@, handles@[h as int]@);
                    vstd::seq_lib::to_multiset_build(seen, e);
                    assert(handles@.subrange(0, h + 1).map_values(|x: SymbolHandle| (key@, x@)) =~= handles@.subrange(
                        0,
                        h as int,
                    ).map_values(|x: SymbolHandle| (key@, x@)).push(e));
                    entries = next@;
                    seen = seen.push(e);
                }
                h = h + 1;
            }
            proof {
                assert(handles@.subrange(0, handles@.len() as int) =~= handles@);
                assert(duplicate_entries(table@, k + 1) =~= duplicate_entries(table@, k as int) + table@[k as int].1@.map_values(
                    |x: SymbolHandle| (table@[k as int].0@, x@),
                ));
            }
            k = k + 1;
        }
        family = family + 1;
    }
    proof {
        assert(r@.map_values(|f: WorkspaceSymbolFact| symbol_entry(f)) =~= entries);
    }
    r
}

/// The semantic payload of one workspace instance.
pub struct DerivedWorkspaceInstance {
    /// The document that roots the instance.
    pub root_document: DocumentId,
    /// The documents of the instance, in assembly order.
    pub documents: Vec<DocumentId>,
    /// The instance's binding tables.
    pub bindings: WorkspaceBindingTables,
    /// Every symbol the binding tables name, sorted by canonical key and handle.
    pub workspace_symbols: Vec<WorkspaceSymbolFact>,
    /// Every reference's resolution, in document and reference order.
    pub reference_resolutions: Vec<(ReferenceHandle, ReferenceResolutionStatus)>,
    /// Each resolved symbol with the references that resolved to it.
    pub references_by_target: Vec<(SymbolHandle, Vec<ReferenceHandle>)>,
    /// Every semantic diagnostic of the instance, sorted.
    pub semantic_diagnostics: Vec<RuledDiagnostic>,
}

/// `u` splits at the cut points `c` into the instance rules' reports, in rule order:
/// duplicate bindings, repeated sections, scope mismatches, `!element` selectors, deployment
/// topology, resources, views, and unresolved or ambiguous references.
pub open spec fn instance_parts_at(
    docs: Seq<&WorkspaceSemanticDocumentFacts>,
    defs: Seq<&WorkspaceSemanticDocumentFacts>,
    tables: &WorkspaceBindingTables,
    statuses: Seq<(String, PathStatus)>,
    u: Seq<RuledDiagnostic>,
    c: Seq<int>,
) -> bool {
    let n = docs.len() as int;
    let sv = all_sites(docs, tables, n);
    &&& c.len() == 9
    &&& c[0] == 0
    &&& c[8] == u.len()
    &&& forall|k: int| 0 <= k < 8 ==> #[trigger] c[k] <= c[k + 1]
    &&& all_have_code(u.subrange(c[0], c[1]), "semantic.duplicate-binding"@)
    &&& binding_reports_ok(docs, tables, u.subrange(c[0], c[1]))
    &&& structure_reports_ok(defs, u.subrange(c[1], c[2]))
    &&& scope_reports_ok(defs, docs, u.subrange(c[2], c[3]))
    &&& selector_sites(u.subrange(c[3], c[4])) == all_selector_reports(docs, tables, n)
    &&& diagnostic_sites(u.subrange(c[4], c[5])) == all_violations(docs, tables, sv, n)
    &&& all_have_code(u.subrange(c[4], c[5]), "semantic.deployment-parent-child-relationship"@)
    &&& violation_reports_ok(docs, tables, sv, u.subrange(c[4], c[5]))
    &&& resource_sites(u.subrange(c[5], c[6])) == all_documentation_reports(docs, statuses, n) + all_image_reports(
        docs,
        statuses,
        n,
    )
    &&& view_reports_ok(docs, tables, sv, u.subrange(c[6], c[7]))
    &&& reference_reports_ok(docs, tables, u.subrange(c[7], c[8]))
}

/// What an assembled instance holds for its documents.
pub open spec fn derived_instance_ok(
    r: &DerivedWorkspaceInstance,
    root: DocumentId,
    docs: Seq<&WorkspaceSemanticDocumentFacts>,
    defs: Seq<&WorkspaceSemanticDocumentFacts>,
    inherited: Seq<(DocumentId, Option<IdentifierMode>)>,
    statuses: Seq<(String, PathStatus)>,
) -> bool {
    &&& r.root_document == root
    &&& r.documents@.len() == docs.len()
    &&& forall|i: int| 0 <= i < docs.len() ==> #[trigger] r.documents@[i] == docs[i].document_id
    &&& binding_tables_ok(docs, inherited, &r.bindings)
    &&& symbols_sorted(r.workspace_symbols@)
    &&& r.workspace_symbols@.map_values(|f: WorkspaceSymbolFact| symbol_entry(f)).to_multiset()
        == table_symbol_entries(&r.bindings).to_multiset()
    &&& forall|j: int|
        0 <= j < r.workspace_symbols@.len() ==> (#[trigger] r.workspace_symbols@[j]).root_document == root
            && r.workspace_symbols@[j].source_document == r.workspace_symbols@[j].handle.document
    &&& resolution_views(r.reference_resolutions@) == all_resolutions(docs, &r.bindings, docs.len() as int)
    &&& target_index_ok(r.references_by_target@, resolution_views(r.reference_resolutions@))
    &&& diags_sorted(r.semantic_diagnostics@, true)
    &&& exists|u: Seq<RuledDiagnostic>, c: Seq<int>|
        #[trigger] instance_parts_at(docs, defs, &r.bindings, statuses, u, c) && u.to_multiset()
            == r.semantic_diagnostics@.to_multiset()
}

/// Every handle that the binding tables of an assembled instance hold names one of the
/// instance's documents, and a symbol of that document by its id.
pub proof fn instance_handles_name_its_documents(
    r: &DerivedWorkspaceInstance,
    root: DocumentId,
    docs: Seq<&WorkspaceSemanticDocumentFacts>,
    defs: Seq<&WorkspaceSemanticDocumentFacts>,
    inherited: Seq<(DocumentId, Option<IdentifierMode>)>,
    statuses: Seq<(String, PathStatus)>,
    h: (Seq<char>, usize),
)
    requires
        derived_instance_ok(r, root, docs, defs, inherited, statuses),
        tables_hold(&r.bindings, h),
    ensures
        exists|a: int, b: int|
            #![trigger r.documents@[a], docs[a].symbols@[b]]
            0 <= a < docs.len() && 0 <= b < docs[a].symbols@.len() && r.documents@[a]@ == h.0
                && docs[a].symbols@[b].id.0 == h.1,
{
    bound_handles_are_declarations(docs, inherited, &r.bindings);
    let t = &r.bindings;
    let fk: (BindingFamily, Seq<char>) = if exists|i: int| 0 <= i < t.unique_elements@.len() && (#[trigger] t.unique_elements@[i]).1@ == h {
        let i = choose|i: int| 0 <= i < t.unique_elements@.len() && (#[trigger] t.unique_elements@[i]).1@ == h;
        (BindingFamily::Element, t.unique_elements@[i].0@)
    } else if exists|i: int| 0 <= i < t.unique_deployments@.len() && (#[trigger] t.unique_deployments@[i]).1@ == h {
        let i = choose|i: int| 0 <= i < t.unique_deployments@.len() && (#[trigger] t.unique_deployments@[i]).1@ == h;
        (BindingFamily::Deployment, t.unique_deployments@[i].0@)
    } else if exists|i: int| 0 <= i < t.unique_relationships@.len() && (#[trigger] t.unique_relationships@[i]).1@ == h {
        let i = choose|i: int| 0 <= i < t.unique_relationships@.len() && (#[trigger] t.unique_relationships@[i]).1@ == h;
        (BindingFamily::Relationship, t.unique_relationships@[i].0@)
    } else if exists|i: int, j: int|
        0 <= i < t.duplicate_elements@.len() && 0 <= j < t.duplicate_elements@[i].1@.len()
            && (#[trigger] t.duplicate_elements@[i].1@[j])@ == h {
        let (i, j) = choose|i: int, j: int|
            0 <= i < t.duplicate_elements@.len() && 0 <= j < t.duplicate_elements@[i].1@.len()
                && (#[trigger] t.duplicate_elements@[i].1@[j])@ == h;
        (BindingFamily::Element, t.duplicate_elements@[i].0@)
    } else if exists|i: int, j: int|
        0 <= i < t.duplicate_deployments@.len() && 0 <= j < t.duplicate_deployments@[i].1@.len()
            && (#[trigger] t.duplicate_deployments@[i].1@[j])@ == h {
        let (i, j) = choose|i: int, j: int|
            0 <= i < t.duplicate_deployments@.len() && 0 <= j < t.duplicate_deployments@[i].1@.len()
                && (#[trigger] t.duplicate_deployments@[i].1@[j])@ == h;
        (BindingFamily::Deployment, t.duplicate_deployments@[i].0@)
    } else {
        let (i, j) = choose|i: int, j: int|
            0 <= i < t.duplicate_relationships@.len() && 0 <= j < t.duplicate_relationships@[i].1@.len()
                && (#[trigger] t.duplicate_relationships@[i].1@[j])@ == h;
        (BindingFamily::Relationship, t.duplicate_relationships@[i].0@)
    };
    assert(declares(docs, inherited, fk.0, fk.1, h));
    let (a, b) = choose|a: int, b: int| #[trigger] declared_at(docs, inherited, fk.0, a, b, fk.1, h);
    assert(declared_at(docs, inherited, fk.0, a, b, fk.1, h));
    assert(r.documents@[a] == docs[a].document_id);
}

/// Two reports agree field by field.
pub open spec fn report_copy(a: RuledDiagnostic, b: RuledDiagnostic) -> bool {
    &&& a.rule == b.rule
    &&& a.diagnostic.message == b.diagnostic.message
    &&& a.diagnostic.span == b.diagnostic.span
    &&& a.diagnostic.annotations@ == b.diagnostic.annotations@
    &&& a.diagnostic.document == b.diagnostic.document
    &&& a.diagnostic.target_text == b.diagnostic.target_text
    &&& a.diagnostic.value_span == b.diagnostic.value_span
}

proof fn lemma_dup_reports_copy(
    kind: Seq<char>,
    dups: Seq<(String, Vec<SymbolHandle>)>,
    docs: Seq<&WorkspaceSemanticDocumentFacts>,
    a: Seq<RuledDiagnostic>,
    b: Seq<RuledDiagnostic>,
)
    requires
        dup_reports_ok(kind, dups, docs, a),
        a.len() == b.len(),
        forall|m: int| 0 <= m < a.len() ==> report_copy(#[trigger] b[m], a[m]),
    ensures
        dup_reports_ok(kind, dups, docs, b),
{
    let ps = dup_positions(docs, dups, dups.len() as int);
    assert forall|m: int| 0 <= m < b.len() implies dup_report_ok(
        #[trigger] b[m],
        kind,
        dups[ps[m].0].0@,
        dup_sites(docs, dups[ps[m].0].1@),
        ps[m].1,
    ) by {
        assert(report_copy(b[m], a[m]));
        assert(dup_report_ok(a[m], kind, dups[ps[m].0].0@, dup_sites(docs, dups[ps[m].0].1@), ps[m].1));
        let others = other_sites(dup_sites(docs, dups[ps[m].0].1@), ps[m].1, dup_sites(docs, dups[ps[m].0].1@).len() as int);
        assert forall|n: int| 0 <= n < others.len() implies #[trigger] b[m].diagnostic.annotations@[n]
            == a[m].diagnostic.annotations@[n] by {}
    }
}

proof fn lemma_copy_subrange(a: Seq<RuledDiagnostic>, b: Seq<RuledDiagnostic>, lo: int, hi: int)
    requires
        a.len() == b.len(),
        0 <= lo <= hi <= a.len(),
        forall|m: int| 0 <= m < a.len() ==> report_copy(#[trigger] b[m], a[m]),
    ensures
        forall|m: int|
            0 <= m < hi - lo ==> report_copy(#[trigger] b.subrange(lo, hi)[m], a.subrange(lo, hi)[m]),
{
    assert forall|m: int| 0 <= m < hi - lo implies report_copy(
        #[trigger] b.subrange(lo, hi)[m],
        a.subrange(lo, hi)[m],
    ) by {
        assert(report_copy(b[lo + m], a[lo + m]));
    }
}

proof fn lemma_binding_reports_copy(
    docs: Seq<&WorkspaceSemanticDocumentFacts>,
    tables: &WorkspaceBindingTables,
    a: Seq<RuledDiagnostic>,
    b: Seq<RuledDiagnostic>,
)
    requires
        binding_reports_ok(docs, tables, a),
        a.len() == b.len(),
        forall|m: int| 0 <= m < a.len() ==> report_copy(#[trigger] b[m], a[m]),
    ensures
        binding_reports_ok(docs, tables, b),
{
    let e = dup_positions(docs, tables.duplicate_elements@, tables.duplicate_elements@.len() as int).len() as int;
    let f = dup_positions(docs, tables.duplicate_deployments@, tables.duplicate_deployments@.len() as int).len() as int;
    let g = dup_positions(docs, tables.duplicate_relationships@, tables.duplicate_relationships@.len() as int).len() as int;
    lemma_copy_subrange(a, b, 0, e);
    lemma_copy_subrange(a, b, e, e + f);
    lemma_copy_subrange(a, b, e + f, e + f + g);
    lemma_dup_reports_copy("element"@, tables.duplicate_elements@, docs, a.subrange(0, e), b.subrange(0, e));
    lemma_dup_reports_copy("deployment"@, tables.duplicate_deployments@, docs, a.subrange(e, e + f), b.subrange(e, e + f));
    lemma_dup_reports_copy(
        "relationship"@,
        tables.duplicate_relationships@,
        docs,
        a.subrange(e + f, e + f + g),
        b.subrange(e + f, e + f + g),
    );
}

fn clone_diagnostics(v: &Vec<RuledDiagnostic>) -> (r: Vec<RuledDiagnostic>)
    ensures
        r@.len() == v@.len(),
        forall|m: int| 0 <= m < v@.len() ==> code_of(#[trigger] r@[m]) == code_of(v@[m]),
        forall|m: int| 0 <= m < v@.len() ==> report_copy(#[trigger] r@[m], v@[m]),
{
    let mut r: Vec<RuledDiagnostic> = Vec::new();
    let mut i: usize = 0;
    while i < v.len()
        invariant
            i <= v@.len(),
            r@.len() == i,
            forall|m: int| 0 <= m < i ==> code_of(#[trigger] r@[m]) == code_of(v@[m]),
            forall|m: int| 0 <= m < i ==> report_copy(#[trigger] r@[m], v@[m]),
        decreases v@.len() - i,
    {
        r.push(v[i].clone());
        i = i + 1;
    }
    r
}

/// Assembles one workspace instance from its documents: binding tables, workspace symbols,
/// reference resolutions, the reverse reference index, and every semantic rule's diagnostics
/// sorted together. `definition_documents` scope the structural rules to one definition;
/// `statuses` are what the filesystem holds at the resource paths.
#[verifier::rlimit(60)]
pub fn build_derived_workspace_instance(
    root_document: &WorkspaceSemanticDocumentFacts,
    documents: &[&WorkspaceSemanticDocumentFacts],
    definition_documents: &[&WorkspaceSemanticDocumentFacts],
    inherited_workspace_modes: &[(DocumentId, Option<IdentifierMode>)],
    statuses: &Vec<(String, PathStatus)>,
) -> (r: DerivedWorkspaceInstance)
    requires
        documents_well_formed(documents@),
    ensures
        derived_instance_ok(
            &r,
            root_document.document_id,
            documents@,
            definition_documents@,
            inherited_workspace_modes@,
            statuses@,
        ),
{
    let bindings = build_binding_tables(documents, inherited_workspace_modes);
    let workspace_symbols = build_workspace_symbols(&root_document.document_id, &bindings);
    let reference_tables = build_reference_resolution_tables(documents, &bindings);
    let ghost n = documents@.len() as int;
    let ghost sv = site_views(reference_tables.resolved_targets@);
    let mut all = clone_diagnostics(&bindings.semantic_diagnostics);
    let ghost p0 = all@;
    let c1 = all.len();
    let mut part = workspace_structure_diagnostics(definition_documents);
    let ghost p1 = part@;
    all.append(&mut part);
    let c2 = all.len();
    let mut part = workspace_scope_diagnostics(definition_documents, documents);
    let ghost p2 = part@;
    all.append(&mut part);
    let c3 = all.len();
    let mut part = element_selector_diagnostics(documents, &bindings);
    let ghost p3 = part@;
    all.append(&mut part);
    let c4 = all.len();
    let mut part = deployment_semantic_diagnostics(documents, &bindings, &reference_tables.resolved_targets);
    let ghost p4 = part@;
    all.append(&mut part);
    let c5 = all.len();
    let mut part = resource_semantic_diagnostics(documents, statuses);
    let ghost p5 = part@;
    all.append(&mut part);
    let c6 = all.len();
    let mut part = view_semantic_diagnostics(documents, &bindings, &reference_tables.resolved_targets);
    let ghost p6 = part@;
    all.append(&mut part);
    let c7 = all.len();
    let mut part = clone_diagnostics(&reference_tables.semantic_diagnostics);
    let ghost p7 = part@;
    all.append(&mut part);
    let ghost u = all@;
    let ghost c = seq![0, c1 as int, c2 as int, c3 as int, c4 as int, c5 as int, c6 as int, c7 as int, u.len() as int];
    proof {
        assert(u =~= p0 + p1 + p2 + p3 + p4 + p5 + p6 + p7);
        assert(u.subrange(c[0], c[1]) =~= p0);
        assert(u.subrange(c[1], c[2]) =~= p1);
        assert(u.subrange(c[2], c[3]) =~= p2);
        assert(u.subrange(c[3], c[4]) =~= p3);
        assert(u.subrange(c[4], c[5]) =~= p4);
        assert(u.subrange(c[5], c[6]) =~= p5);
        assert(u.subrange(c[6], c[7]) =~= p6);
        assert(u.subrange(c[7], c[8]) =~= p7);
        lemma_binding_reports_copy(documents@, &bindings, bindings.semantic_diagnostics@, p0);
        let reported = all_reported(documents@, &bindings, documents@.len() as int);
        assert forall|m: int| 0 <= m < p7.len() implies reference_report_ok(
            documents@,
            &bindings,
            #[trigger] p7[m],
            reported[m],
        ) by {
            assert(report_copy(p7[m], reference_tables.semantic_diagnostics@[m]));
            assert(reference_report_ok(documents@, &bindings, reference_tables.semantic_diagnostics@[m], reported[m]));
        }
        assert forall|k: int| 0 <= k < 8 implies #[trigger] c[k] <= c[k + 1] by {}
        assert(instance_parts_at(documents@, definition_documents@, &bindings, statuses@, u, c));
    }
    let semantic_diagnostics = sort_semantic_diagnostics(all);
    let references_by_target = index_references_by_target(&reference_tables.resolutions);
    let mut ids: Vec<DocumentId> = Vec::new();
    let mut i: usize = 0;
    while i < documents.len()
        invariant
            i <= documents@.len(),
            ids@.len() == i,
            forall|k: int| 0 <= k < i ==> #[trigger] ids@[k] == documents@[k].document_id,
        decreases documents@.len() - i,
    {
        ids.push(documents[i].document_id.clone());
        i = i + 1;
    }
    let r = DerivedWorkspaceInstance {
        root_document: root_document.document_id.clone(),
        documents: ids,
        bindings,
        workspace_symbols,
        reference_resolutions: reference_tables.resolutions,
        references_by_target,
        semantic_diagnostics,
    };
    proof {
        assert(instance_parts_at(documents@, definition_documents@, &r.bindings, statuses@, u, c));
        assert(u.to_multiset() == r.semantic_diagnostics@.to_multiset());
    }
    r
}

/// The entry for `d` in a per-document table, if any: the first one.
pub open spec fn mode_entry(t: Seq<(DocumentId, ElementIdentifierMode)>, d: Seq<char>) -> Option<ElementIdentifierMode>
    decreases t.len(),
{
    if t.len() == 0 {
        None
    } else if t[0].0@ == d {
        Some(t[0].1)
    } else {
        mode_entry(t.drop_first(), d)
    }
}

/// The recorded resolution for reference `h`, if any: the first one.
pub open spec fn resolution_entry(t: Seq<(ReferenceHandle, ReferenceResolutionStatus)>, h: (Seq<char>, usize)) -> Option<
    ReferenceResolutionStatus,
>
    decreases t.len(),
{
    if t.len() == 0 {
        None
    } else if t[0].0@ == h {
        Some(t[0].1)
    } else {
        resolution_entry(t.drop_first(), h)
    }
}

/// The key of the first unique-table entry bound to `h`.
pub open spec fn key_for_handle(t: Seq<(String, SymbolHandle)>, h: (Seq<char>, usize)) -> Option<Seq<char>>
    decreases t.len(),
{
    if t.len() == 0 {
        None
    } else if t[0].1@ == h {
        Some(t[0].0@)
    } else {
        key_for_handle(t.drop_first(), h)
    }
}

fn find_key_for_handle<'a>(t: &'a Vec<(String, SymbolHandle)>, h: &SymbolHandle) -> (r: Option<&'a str>)
    ensures
        match r {
            Some(k) => key_for_handle(t@, h@) == Some(k@),
            None => key_for_handle(t@, h@) is None,
        },
{
    let mut i: usize = 0;
    assert(t@.skip(0) =~= t@);
    while i < t.len()
        invariant
            i <= t@.len(),
            key_for_handle(t@, h@) == key_for_handle(t@.skip(i as int), h@),
        decreases t@.len() - i,
    {
        assert(t@.skip(i as int).drop_first() =~= t@.skip(i + 1));
        if t[i].1.same(h) {
            return Some(t[i].0.as_str());
        }
        i = i + 1;
    }
    None
}

/// Derived semantic index for one workspace instance.
pub struct WorkspaceIndex {
    /// This index's instance identity within one load.
    pub id: WorkspaceInstanceId,
    /// The instance's semantic payload.
    pub derived: DerivedWorkspaceInstance,
}

impl WorkspaceIndex {
    /// Pairs an instance identity with its payload.
    pub fn from_derived(id: WorkspaceInstanceId, derived: DerivedWorkspaceInstance) -> (r: Self)
        ensures
            r.id == id,
            r.derived == derived,
    {
        WorkspaceIndex { id, derived }
    }

    /// Returns this index's instance identity.
    pub fn id(&self) -> (r: WorkspaceInstanceId)
        ensures
            r == self.id,
    {
        self.id
    }

    /// Returns the root document that defines this workspace instance.
    pub fn root_document(&self) -> (r: &DocumentId)
        ensures
            *r == self.derived.root_document,
    {
        &self.derived.root_document
    }

    /// Returns the documents that participate in this instance.
    pub fn documents(&self) -> (r: &[DocumentId])
        ensures
            r@ == self.derived.documents@,
    {
        self.derived.documents.as_slice()
    }

    /// Returns the unique element bindings, sorted by canonical key.
    pub fn unique_element_bindings(&self) -> (r: &[(String, SymbolHandle)])
        ensures
            r@ == self.derived.bindings.unique_elements@,
    {
        self.derived.bindings.unique_elements.as_slice()
    }

    /// Returns the effective element-identifier mode of one document of this instance.
    pub fn element_identifier_mode_for(&self, document: &DocumentId) -> (r: Option<ElementIdentifierMode>)
        ensures
            r == mode_entry(self.derived.bindings.element_modes@, document@),
    {
        let t = &self.derived.bindings.element_modes;
        let mut i: usize = 0;
        assert(t@.skip(0) =~= t@);
        while i < t.len()
            invariant
                t == &self.derived.bindings.element_modes,
                i <= t@.len(),
                mode_entry(t@, document@) == mode_entry(t@.skip(i as int), document@),
            decreases t@.len() - i,
        {
            assert(t@.skip(i as int).drop_first() =~= t@.skip(i + 1));
            if t[i].0.same(document) {
                assert(t@.skip(i as int)[0] == t@[i as int]);
                return Some(t[i].1);
            }
            i = i + 1;
        }
        None
    }

    /// Returns the duplicate element bindings, sorted by canonical key.
    pub fn duplicate_element_bindings(&self) -> (r: &[(String, Vec<SymbolHandle>)])
        ensures
            r@ == self.derived.bindings.duplicate_elements@,
    {
        self.derived.bindings.duplicate_elements.as_slice()
    }

    /// Returns the unique deployment bindings, sorted by identifier.
    pub fn unique_deployment_bindings(&self) -> (r: &[(String, SymbolHandle)])
        ensures
            r@ == self.derived.bindings.unique_deployments@,
    {
        self.derived.bindings.unique_deployments.as_slice()
    }

    /// Returns the duplicate deployment bindings, sorted by identifier.
    pub fn duplicate_deployment_bindings(&self) -> (r: &[(String, Vec<SymbolHandle>)])
        ensures
            r@ == self.derived.bindings.duplicate_deployments@,
    {
        self.derived.bindings.duplicate_deployments.as_slice()
    }

    /// Returns the unique relationship bindings, sorted by canonical key.
    pub fn unique_relationship_bindings(&self) -> (r: &[(String, SymbolHandle)])
        ensures
            r@ == self.derived.bindings.unique_relationships@,
    {
        self.derived.bindings.unique_relationships.as_slice()
    }

    /// Returns the duplicate relationship bindings, sorted by canonical key.
    pub fn duplicate_relationship_bindings(&self) -> (r: &[(String, Vec<SymbolHandle>)])
        ensures
            r@ == self.derived.bindings.duplicate_relationships@,
    {
        self.derived.bindings.duplicate_relationships.as_slice()
    }

    /// Returns the instance's symbols for workspace-wide symbol queries.
    pub fn workspace_symbols(&self) -> (r: &[WorkspaceSymbolFact])
        ensures
            r@ == self.derived.workspace_symbols@,
    {
        self.derived.workspace_symbols.as_slice()
    }

    /// Returns the resolution recorded for one reference.
    pub fn reference_resolution(&self, handle: &ReferenceHandle) -> (r: Option<&ReferenceResolutionStatus>)
        ensures
            match r {
                Some(s) => resolution_entry(self.derived.reference_resolutions@, handle@) == Some(*s),
                None => resolution_entry(self.derived.reference_resolutions@, handle@) is None,
            },
    {
        let t = &self.derived.reference_resolutions;
        let mut i: usize = 0;
        assert(t@.skip(0) =~= t@);
        while i < t.len()
            invariant
                t == &self.derived.reference_resolutions,
                i <= t@.len(),
                resolution_entry(t@, handle@) == resolution_entry(t@.skip(i as int), handle@),
            decreases t@.len() - i,
        {
            assert(t@.skip(i as int).drop_first() =~= t@.skip(i + 1));
            if t[i].0.same(handle) {
                assert(t@.skip(i as int)[0] == t@[i as int]);
                return Some(&t[i].1);
            }
            i = i + 1;
        }
        None
    }

    /// Returns every reference that resolved to one symbol, in handle order and without
    /// repeats.
    pub fn references_for_symbol(&self, handle: &SymbolHandle) -> (r: Vec<ReferenceHandle>)
        requires
            target_index_ok(self.derived.references_by_target@, resolution_views(self.derived.reference_resolutions@)),
        ensures
            refs_sorted(r@),
            forall|y: (Seq<char>, usize)| #[trigger] has_ref(r@, y) <==> resolved_to(
                resolution_views(self.derived.reference_resolutions@),
                y,
                handle@,
            ),
    {
        let t = &self.derived.references_by_target;
        let ghost rv = resolution_views(self.derived.reference_resolutions@);
        let mut i: usize = 0;
        while i < t.len()
            invariant
                t == &self.derived.references_by_target,
                rv == resolution_views(self.derived.reference_resolutions@),
                i <= t@.len(),
                target_index_ok(t@, rv),
                forall|j: int| 0 <= j < i ==> (#[trigger] t@[j]).0@ != handle@,
            decreases t@.len() - i,
        {
            if t[i].0.same(handle) {
                let group = &t[i].1;
                let mut out: Vec<ReferenceHandle> = Vec::new();
                let mut k: usize = 0;
                while k < group.len()
                    invariant
                        k <= group@.len(),
                        out@ == group@.subrange(0, k as int),
                    decreases group@.len() - k,
                {
                    out.push(group[k].clone());
                    k = k + 1;
                }
                proof {
                    assert(out@ =~= group@);
                    assert forall|y: (Seq<char>, usize)| #[trigger] has_ref(out@, y) <==> resolved_to(rv, y, handle@) by {
                        assert(t@[i as int].0@ == handle@);
                        assert(out@ == t@[i as int].1@);
                        if has_ref(out@, y) {
                            assert(has_ref(t@[i as int].1@, y));
                            assert(indexed(t@, handle@, y));
                        }
                        if resolved_to(rv, y, handle@) {
                            assert(indexed(t@, handle@, y));
                            let j = choose|j: int|
                                0 <= j < t@.len() && (#[trigger] t@[j]).0@ == handle@ && has_ref(t@[j].1@, y);
                            if j != i {
                                if j < i {
                                    assert(t@[j].0@ != handle@);
                                } else {
                                    assert(crate::workspace::model::handle_lt(t@[i as int].0@, t@[j].0@));
                                    crate::workspace::tables::lemma_handle_lt_irreflexive(handle@);
                                }
                            }
                        }
                    }
                }
                return out;
            }
            i = i + 1;
        }
        proof {
            assert forall|y: (Seq<char>, usize)| #[trigger] has_ref(Seq::<ReferenceHandle>::empty(), y) <==> resolved_to(
                rv,
                y,
                handle@,
            ) by {
                if resolved_to(rv, y, handle@) {
                    assert(indexed(t@, handle@, y));
                }
            }
        }
        Vec::new()
    }

    /// Returns the canonical key of one symbol when a unique binding names it: elements first,
    /// then deployments, then relationships.
    pub fn unique_binding_key_for_symbol(&self, handle: &SymbolHandle) -> (r: Option<&str>)
        ensures
            match r {
                Some(k) => (key_for_handle(self.derived.bindings.unique_elements@, handle@) matches Some(e) && e == k@)
                    || (key_for_handle(self.derived.bindings.unique_elements@, handle@) is None && (key_for_handle(
                    self.derived.bindings.unique_deployments@,
                    handle@,
                ) matches Some(e) && e == k@)) || (key_for_handle(self.derived.bindings.unique_elements@, handle@) is None
                    && key_for_handle(self.derived.bindings.unique_deployments@, handle@) is None && key_for_handle(
                    self.derived.bindings.unique_relationships@,
                    handle@,
                ) == Some(k@)),
                None => key_for_handle(self.derived.bindings.unique_elements@, handle@) is None && key_for_handle(
                    self.derived.bindings.unique_deployments@,
                    handle@,
                ) is None && key_for_handle(self.derived.bindings.unique_relationships@, handle@) is None,
            },
    {
        match find_key_for_handle(&self.derived.bindings.unique_elements, handle) {
            Some(k) => Some(k),
            None => match find_key_for_handle(&self.derived.bindings.unique_deployments, handle) {
                Some(k) => Some(k),
                None => find_key_for_handle(&self.derived.bindings.unique_relationships, handle),
            },
        }
    }

    /// Returns the instance's semantic diagnostics, sorted.
    pub fn semantic_diagnostics(&self) -> (r: &[RuledDiagnostic])
        ensures
            r@ == self.derived.semantic_diagnostics@,
    {
        self.derived.semantic_diagnostics.as_slice()
    }

    /// Returns whether the instance includes one document.
    pub fn contains_document(&self, document: &DocumentId) -> (r: bool)
        ensures
            r == exists|i: int| 0 <= i < self.derived.documents@.len() && (#[trigger] self.derived.documents@[i])@ == document@,
    {
        let mut i: usize = 0;
        while i < self.derived.documents.len()
            invariant
                i <= self.derived.documents@.len(),
                forall|j: int| 0 <= j < i ==> (#[trigger] self.derived.documents@[j])@ != document@,
            decreases self.derived.documents@.len() - i,
        {
            if self.derived.documents[i].same(document) {
                return true;
            }
            i = i + 1;
        }
        false
    }
}

} // verus!
