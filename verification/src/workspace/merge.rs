//! Merging the semantic diagnostics of the instances that share a document.
//!
//! A document can take part in several candidate workspace instances. A diagnostic that every
//! instance containing its document reports is kept; any other becomes one disagreement
//! diagnostic per group of variants that differ only in their related context.

use vstd::prelude::*;

use crate::diagnostics::{code_of, Annotation, RuledDiagnostic};
use crate::snapshot::DocumentId;
use crate::workspace::instance::{sort_semantic_diagnostics, WorkspaceIndex};
use crate::workspace::model::WorkspaceInstanceId;
use crate::workspace::ordering::{diags_sorted, doc_key, text_key};

verus! {

/// An optional text, by its characters.
pub open spec fn opt_text(t: Option<String>) -> Option<Seq<char>> {
    text_key(t)
}

/// Two annotations say the same thing.
pub open spec fn annotation_equal(a: Annotation, b: Annotation) -> bool {
    doc_key(a.document) == doc_key(b.document) && a.span == b.span && opt_text(a.message) == opt_text(b.message)
}

/// Two diagnostics agree in everything but their related context.
pub open spec fn merge_key_equal(a: RuledDiagnostic, b: RuledDiagnostic) -> bool {
    &&& code_of(a) == code_of(b)
    &&& a.diagnostic.span == b.diagnostic.span
    &&& a.diagnostic.message@ == b.diagnostic.message@
    &&& text_key(a.diagnostic.target_text) == text_key(b.diagnostic.target_text)
    &&& a.diagnostic.value_span == b.diagnostic.value_span
}

/// Two diagnostics are the same report, related context included.
pub open spec fn diag_equal(a: RuledDiagnostic, b: RuledDiagnostic) -> bool {
    &&& merge_key_equal(a, b)
    &&& doc_key(a.diagnostic.document) == doc_key(b.diagnostic.document)
    &&& a.diagnostic.annotations@.len() == b.diagnostic.annotations@.len()
    &&& forall|i: int|
        0 <= i < a.diagnostic.annotations@.len() ==> annotation_equal(
            #[trigger] a.diagnostic.annotations@[i],
            b.diagnostic.annotations@[i],
        )
}

fn opt_text_equal(a: &Option<String>, b: &Option<String>) -> (r: bool)
    ensures
        r == (opt_text(*a) == opt_text(*b)),
{
    match (a, b) {
        (None, None) => true,
        (Some(x), Some(y)) => crate::text::str_eq(x.as_str(), y.as_str()),
        _ => false,
    }
}

fn opt_doc_equal(a: &Option<DocumentId>, b: &Option<DocumentId>) -> (r: bool)
    ensures
        r == (doc_key(*a) == doc_key(*b)),
{
    match (a, b) {
        (None, None) => true,
        (Some(x), Some(y)) => x.same(y),
        _ => false,
    }
}

fn same_annotation(a: &Annotation, b: &Annotation) -> (r: bool)
    ensures
        r == annotation_equal(*a, *b),
{
    opt_doc_equal(&a.document, &b.document) && a.span == b.span && opt_text_equal(&a.message, &b.message)
}

fn same_merge_key(a: &RuledDiagnostic, b: &RuledDiagnostic) -> (r: bool)
    ensures
        r == merge_key_equal(*a, *b),
{
    crate::text::str_eq(a.rule.definition.code, b.rule.definition.code) && a.diagnostic.span == b.diagnostic.span
        && crate::text::str_eq(a.diagnostic.message.as_str(), b.diagnostic.message.as_str()) && opt_text_equal(
        &a.diagnostic.target_text,
        &b.diagnostic.target_text,
    ) && a.diagnostic.value_span == b.diagnostic.value_span
}

/// Whether two diagnostics are the same report.
pub fn same_diagnostic(a: &RuledDiagnostic, b: &RuledDiagnostic) -> (r: bool)
    ensures
        r == diag_equal(*a, *b),
{
    if !same_merge_key(a, b) || !opt_doc_equal(&a.diagnostic.document, &b.diagnostic.document) {
        return false;
    }
    let aa = &a.diagnostic.annotations;
    let ba = &b.diagnostic.annotations;
    if aa.len() != ba.len() {
        return false;
    }
    let mut i: usize = 0;
    while i < aa.len()
        invariant
            aa@ == a.diagnostic.annotations@,
            ba@ == b.diagnostic.annotations@,
            aa@.len() == ba@.len(),
            i <= aa@.len(),
            forall|k: int| 0 <= k < i ==> annotation_equal(#[trigger] aa@[k], ba@[k]),
        decreases aa@.len() - i,
    {
        if !same_annotation(&aa[i], &ba[i]) {
            assert(!annotation_equal(a.diagnostic.annotations@[i as int], b.diagnostic.annotations@[i as int]));
            return false;
        }
        i = i + 1;
    }
    true
}

/// Some instance reports a diagnostic that is the same report as `d`.
pub open spec fn reported_somewhere(indexes: Seq<WorkspaceIndex>, d: RuledDiagnostic) -> bool {
    exists|k: int, m: int|
        0 <= k < indexes.len() && 0 <= m < indexes[k].derived.semantic_diagnostics@.len() && diag_equal(
            d,
            #[trigger] indexes[k].derived.semantic_diagnostics@[m],
        )
}

/// What a merged diagnostic can be: a report some instance made, or a disagreement report on a
/// document that takes part in several instances.
pub open spec fn merged_from(
    indexes: Seq<WorkspaceIndex>,
    documents: Seq<(DocumentId, Vec<WorkspaceInstanceId>)>,
    d: RuledDiagnostic,
) -> bool {
    ||| reported_somewhere(indexes, d)
    ||| code_of(d) == "semantic.multi-context-disagreement"@ && exists|i: int|
        0 <= i < documents.len() && doc_key(d.diagnostic.document) == Some((#[trigger] documents[i]).0@)
}

fn add_instance(ids: &mut Vec<WorkspaceInstanceId>, id: WorkspaceInstanceId)
    ensures
        forall|x: WorkspaceInstanceId| final(ids)@.contains(x) <==> (old(ids)@.contains(x) || x == id),
{
    let mut i: usize = 0;
    while i < ids.len()
        invariant
            i <= ids@.len(),
            ids@ == old(ids)@,
            forall|k: int| 0 <= k < i ==> ids@[k] != id,
        decreases ids@.len() - i,
    {
        if ids[i].0 == id.0 {
            assert(ids@[i as int] == id);
            return ;
        }
        i = i + 1;
    }
    let ghost before = ids@;
    ids.push(id);
    assert forall|x: WorkspaceInstanceId| ids@.contains(x) <==> (before.contains(x) || x == id) by {
        if before.contains(x) {
            let k = choose|k: int| 0 <= k < before.len() && before[k] == x;
            assert(ids@[k] == x);
        }
        if x == id {
            assert(ids@[before.len() as int] == x);
        }
        if ids@.contains(x) {
            let k = choose|k: int| 0 <= k < ids@.len() && ids@[k] == x;
            if k < before.len() {
                assert(before[k] == x);
            }
        }
    }
}

/// `into` extended by each annotation of `from`, in order, that says nothing already there.
pub open spec fn added_annotations(into: Seq<Annotation>, from: Seq<Annotation>) -> Seq<Annotation>
    decreases from.len(),
{
    if from.len() == 0 {
        into
    } else {
        let acc = added_annotations(into, from.drop_last());
        if exists|k: int| 0 <= k < acc.len() && annotation_equal(#[trigger] acc[k], from.last()) {
            acc
        } else {
            acc.push(from.last())
        }
    }
}

/// Adds to `into` each annotation of `from` that says nothing already there.
fn add_annotations(into: &mut Vec<Annotation>, from: &Vec<Annotation>)
    ensures
        final(into)@ == added_annotations(old(into)@, from@),
{
    let ghost start = into@;
    let mut i: usize = 0;
    while i < from.len()
        invariant
            i <= from@.len(),
            start == old(into)@,
            into@ == added_annotations(start, from@.take(i as int)),
        decreases from@.len() - i,
    {
        proof {
            assert(from@.take(i + 1).drop_last() =~= from@.take(i as int));
            assert(from@.take(i + 1).last() == from@[i as int]);
        }
        let mut present = false;
        let mut k: usize = 0;
        while k < into.len()
            invariant
                i < from@.len(),
                k <= into@.len(),
                present == exists|j: int| 0 <= j < k && annotation_equal(#[trigger] into@[j], from@[i as int]),
            decreases into@.len() - k,
        {
            if same_annotation(&into[k], &from[i]) {
                present = true;
            }
            proof {
                if annotation_equal(into@[k as int], from@[i as int]) {
                    assert(exists|j: int| 0 <= j < k + 1 && annotation_equal(#[trigger] into@[j], from@[i as int]));
                }
            }
            k = k + 1;
        }
        if !present {
            into.push(from[i].clone());
        }
        i = i + 1;
    }
    proof {
        assert(from@.take(from@.len() as int) =~= from@);
    }
}

pub proof fn lemma_diag_equal_sym(a: RuledDiagnostic, b: RuledDiagnostic)
    requires
        diag_equal(a, b),
    ensures
        diag_equal(b, a),
{
    assert forall|i: int| 0 <= i < b.diagnostic.annotations@.len() implies annotation_equal(
        #[trigger] b.diagnostic.annotations@[i],
        a.diagnostic.annotations@[i],
    ) by {
        assert(annotation_equal(a.diagnostic.annotations@[i], b.diagnostic.annotations@[i]));
    }
}

pub proof fn lemma_diag_equal_trans(a: RuledDiagnostic, b: RuledDiagnostic, c: RuledDiagnostic)
    requires
        diag_equal(a, b),
        diag_equal(b, c),
    ensures
        diag_equal(a, c),
{
    assert forall|i: int| 0 <= i < a.diagnostic.annotations@.len() implies annotation_equal(
        #[trigger] a.diagnostic.annotations@[i],
        c.diagnostic.annotations@[i],
    ) by {
        assert(annotation_equal(a.diagnostic.annotations@[i], b.diagnostic.annotations@[i]));
        assert(annotation_equal(b.diagnostic.annotations@[i], c.diagnostic.annotations@[i]));
    }
}

/// Index `ix` reports `d` among its first `limit` semantic diagnostics.
pub open spec fn reported_within(ix: WorkspaceIndex, d: RuledDiagnostic, limit: int) -> bool {
    exists|m: int|
        0 <= m < limit && m < ix.derived.semantic_diagnostics@.len() && diag_equal(
            d,
            #[trigger] ix.derived.semantic_diagnostics@[m],
        )
}

/// Index `ix` reports `d`.
pub open spec fn index_reports(ix: WorkspaceIndex, d: RuledDiagnostic) -> bool {
    reported_within(ix, d, ix.derived.semantic_diagnostics@.len() as int)
}

/// Instance `x` reports `d`: some index numbered `x` does.
pub open spec fn reported_by(indexes: Seq<WorkspaceIndex>, x: WorkspaceInstanceId, d: RuledDiagnostic) -> bool {
    exists|k: int| 0 <= k < indexes.len() && (#[trigger] indexes[k]).id == x && index_reports(indexes[k], d)
}

/// Instance `x` reports `d` among the first `k` indexes, or in index `k` among its first `m`
/// diagnostics.
pub open spec fn seen_by(indexes: Seq<WorkspaceIndex>, k: int, m: int, x: WorkspaceInstanceId, d: RuledDiagnostic) -> bool {
    ||| exists|k2: int| 0 <= k2 < k && (#[trigger] indexes[k2]).id == x && index_reports(indexes[k2], d)
    ||| (0 <= k < indexes.len() && indexes[k].id == x && reported_within(indexes[k], d, m))
}

/// Diagnostic `d` is about document `document`.
pub open spec fn about(d: RuledDiagnostic, document: Seq<char>) -> bool {
    doc_key(d.diagnostic.document) == Some(document)
}

/// Some variant is the same report as `d`.
pub open spec fn has_variant(variants: Seq<(RuledDiagnostic, Vec<WorkspaceInstanceId>)>, d: RuledDiagnostic) -> bool {
    exists|w: int| 0 <= w < variants.len() && diag_equal((#[trigger] variants[w]).0, d)
}

/// The variants gathered after the first `k` indexes and `m` diagnostics of index `k`.
pub open spec fn variants_ok(
    indexes: Seq<WorkspaceIndex>,
    document: Seq<char>,
    variants: Seq<(RuledDiagnostic, Vec<WorkspaceInstanceId>)>,
    k: int,
    m: int,
) -> bool {
    &&& forall|w: int| 0 <= w < variants.len() ==> about((#[trigger] variants[w]).0, document)
    &&& forall|w: int| 0 <= w < variants.len() ==> reported_somewhere(indexes, (#[trigger] variants[w]).0)
    &&& forall|w1: int, w2: int|
        0 <= w1 < w2 < variants.len() ==> !diag_equal((#[trigger] variants[w1]).0, (#[trigger] variants[w2]).0)
    &&& forall|w: int| 0 <= w < variants.len() ==> (#[trigger] variants[w]).1@.no_duplicates()
    &&& forall|w: int, x: WorkspaceInstanceId|
        0 <= w < variants.len() ==> (#[trigger] variants[w].1@.contains(x) <==> seen_by(indexes, k, m, x, variants[w].0))
    &&& forall|k2: int, m2: int|
        0 <= k2 < indexes.len() && 0 <= m2 < indexes[k2].derived.semantic_diagnostics@.len() && (k2 < k || (k2 == k
            && m2 < m)) && about(#[trigger] indexes[k2].derived.semantic_diagnostics@[m2], document) ==> has_variant(
            variants,
            indexes[k2].derived.semantic_diagnostics@[m2],
        )
}

proof fn lemma_not_seen_before(
    indexes: Seq<WorkspaceIndex>,
    document: Seq<char>,
    variants: Seq<(RuledDiagnostic, Vec<WorkspaceInstanceId>)>,
    k: int,
    m: int,
    d: RuledDiagnostic,
    x: WorkspaceInstanceId,
)
    requires
        0 <= k < indexes.len(),
        variants_ok(indexes, document, variants, k, m),
        about(d, document),
        !has_variant(variants, d),
    ensures
        !seen_by(indexes, k, m, x, d),
{
    if exists|k2: int| 0 <= k2 < k && (#[trigger] indexes[k2]).id == x && index_reports(indexes[k2], d) {
        let k2 = choose|k2: int| 0 <= k2 < k && (#[trigger] indexes[k2]).id == x && index_reports(indexes[k2], d);
        let m2 = choose|m2: int|
            0 <= m2 < indexes[k2].derived.semantic_diagnostics@.len() && m2 < indexes[k2].derived.semantic_diagnostics@.len()
                && diag_equal(d, #[trigger] indexes[k2].derived.semantic_diagnostics@[m2]);
        let e = indexes[k2].derived.semantic_diagnostics@[m2];
        assert(about(e, document));
        assert(has_variant(variants, e));
        let w = choose|w: int| 0 <= w < variants.len() && diag_equal((#[trigger] variants[w]).0, e);
        lemma_diag_equal_sym(d, e);
        lemma_diag_equal_trans(variants[w].0, e, d);
        assert(false);
    }
    if 0 <= k < indexes.len() && indexes[k].id == x && reported_within(indexes[k], d, m) {
        let m2 = choose|m2: int|
            0 <= m2 < m && m2 < indexes[k].derived.semantic_diagnostics@.len() && diag_equal(
                d,
                #[trigger] indexes[k].derived.semantic_diagnostics@[m2],
            );
        let e = indexes[k].derived.semantic_diagnostics@[m2];
        assert(about(e, document));
        assert(has_variant(variants, e));
        let w = choose|w: int| 0 <= w < variants.len() && diag_equal((#[trigger] variants[w]).0, e);
        lemma_diag_equal_sym(d, e);
        lemma_diag_equal_trans(variants[w].0, e, d);
        assert(false);
    }
}

proof fn lemma_seen_step(indexes: Seq<WorkspaceIndex>, k: int, m: int, x: WorkspaceInstanceId, rep: RuledDiagnostic)
    requires
        0 <= k < indexes.len(),
        0 <= m < indexes[k].derived.semantic_diagnostics@.len(),
    ensures
        seen_by(indexes, k, m + 1, x, rep) == (seen_by(indexes, k, m, x, rep) || (indexes[k].id == x && diag_equal(
            rep,
            indexes[k].derived.semantic_diagnostics@[m],
        ))),
{
    let ds = indexes[k].derived.semantic_diagnostics@;
    if indexes[k].id == x && reported_within(indexes[k], rep, m + 1) && !reported_within(indexes[k], rep, m) {
        let m2 = choose|m2: int| 0 <= m2 < m + 1 && m2 < ds.len() && diag_equal(rep, #[trigger] ds[m2]);
        assert(m2 == m);
    }
    if indexes[k].id == x && diag_equal(rep, ds[m]) {
        assert(reported_within(indexes[k], rep, m + 1));
    }
    if reported_within(indexes[k], rep, m) {
        let m2 = choose|m2: int| 0 <= m2 < m && m2 < ds.len() && diag_equal(rep, #[trigger] ds[m2]);
        assert(reported_within(indexes[k], rep, m + 1));
    }
}

proof fn lemma_seen_next_index(indexes: Seq<WorkspaceIndex>, k: int, x: WorkspaceInstanceId, rep: RuledDiagnostic)
    requires
        0 <= k < indexes.len(),
    ensures
        seen_by(indexes, k + 1, 0, x, rep) == seen_by(indexes, k, indexes[k].derived.semantic_diagnostics@.len() as int, x, rep),
{
    if seen_by(indexes, k, indexes[k].derived.semantic_diagnostics@.len() as int, x, rep) {
        if indexes[k].id == x && index_reports(indexes[k], rep) {
            assert(indexes[k].id == x && index_reports(indexes[k], rep));
        }
    }
    if seen_by(indexes, k + 1, 0, x, rep) {
        let k2 = choose|k2: int| 0 <= k2 < k + 1 && (#[trigger] indexes[k2]).id == x && index_reports(indexes[k2], rep);
        if k2 < k {
            assert(0 <= k2 < k && indexes[k2].id == x && index_reports(indexes[k2], rep));
        }
    }
}

/// The distinct reports about one document, each with the instances that made it: no two
/// variants are the same report, each report any index makes about the document has a
/// variant, and each variant lists, once each, exactly the instances that report it.
fn document_variants(workspace_indexes: &Vec<WorkspaceIndex>, document: &DocumentId) -> (r: Vec<
    (RuledDiagnostic, Vec<WorkspaceInstanceId>),
>)
    ensures
        variants_ok(workspace_indexes@, document@, r@, workspace_indexes@.len() as int, 0),
{
    let ghost ixs = workspace_indexes@;
    let mut variants: Vec<(RuledDiagnostic, Vec<WorkspaceInstanceId>)> = Vec::new();
    let mut k: usize = 0;
    while k < workspace_indexes.len()
        invariant
            ixs == workspace_indexes@,
            k <= ixs.len(),
            variants_ok(ixs, document@, variants@, k as int, 0),
        decreases ixs.len() - k,
    {
        let index = &workspace_indexes[k];
        let mut m: usize = 0;
        while m < index.derived.semantic_diagnostics.len()
            invariant
                ixs == workspace_indexes@,
                k < ixs.len(),
                *index == ixs[k as int],
                m <= index.derived.semantic_diagnostics@.len(),
                variants_ok(ixs, document@, variants@, k as int, m as int),
            decreases index.derived.semantic_diagnostics@.len() - m,
        {
            let d = &index.derived.semantic_diagnostics[m];
            let ghost dv = *d;
            let ghost before = variants@;
            let is_about = match &d.diagnostic.document {
                Some(x) => x.same(document),
                None => false,
            };
            if is_about {
                let mut v: usize = 0;
                let mut found = false;
                while v < variants.len() && !found
                    invariant
                        ixs == workspace_indexes@,
                        k < ixs.len(),
                        m < ixs[k as int].derived.semantic_diagnostics@.len(),
                        dv == ixs[k as int].derived.semantic_diagnostics@[m as int],
                        about(dv, document@),
                        *d == dv,
                        index.id == ixs[k as int].id,
                        v <= variants@.len(),
                        !found ==> variants@ == before && forall|w: int| 0 <= w < v ==> !diag_equal(#[trigger] before[w].0, dv),
                        found ==> variants_ok(ixs, document@, variants@, k as int, m + 1),
                        variants_ok(ixs, document@, before, k as int, m as int),
                    decreases variants@.len() - v, if found { 0int } else { 1int },
                {
                    if same_diagnostic(&variants[v].0, d) {
                        let (rep, mut ids) = variants.remove(v);
                        let ghost ids0 = ids@;
                        add_instance_distinct(&mut ids, index.id);
                        variants.insert(v, (rep, ids));
                        proof {
                            lemma_found_variant(ixs, document@, before, variants@, k as int, m as int, v as int);
                        }
                        found = true;
                    } else {
                        v = v + 1;
                    }
                }
                if !found {
                    let copy = d.clone();
                    let mut ids: Vec<WorkspaceInstanceId> = Vec::new();
                    ids.push(index.id);
                    proof {
                        assert(diag_equal(copy, dv));
                        lemma_diag_equal_sym(copy, dv);
                    }
                    variants.push((copy, ids));
                    proof {
                        lemma_new_variant(ixs, document@, before, variants@, k as int, m as int);
                    }
                }
            } else {
                proof {
                    lemma_unrelated_step(ixs, document@, variants@, k as int, m as int);
                }
            }
            m = m + 1;
        }
        proof {
            lemma_next_index(ixs, document@, variants@, k as int);
        }
        k = k + 1;
    }
    variants
}

proof fn lemma_unrelated_step(
    ixs: Seq<WorkspaceIndex>,
    document: Seq<char>,
    variants: Seq<(RuledDiagnostic, Vec<WorkspaceInstanceId>)>,
    k: int,
    m: int,
)
    requires
        0 <= k < ixs.len(),
        0 <= m < ixs[k].derived.semantic_diagnostics@.len(),
        !about(ixs[k].derived.semantic_diagnostics@[m], document),
        variants_ok(ixs, document, variants, k, m),
    ensures
        variants_ok(ixs, document, variants, k, m + 1),
{
    let dv = ixs[k].derived.semantic_diagnostics@[m];
    assert forall|w: int, x: WorkspaceInstanceId|
        0 <= w < variants.len() implies (#[trigger] variants[w].1@.contains(x) <==> seen_by(ixs, k, m + 1, x, variants[w].0)) by {
        lemma_seen_step(ixs, k, m, x, variants[w].0);
        assert(!diag_equal(variants[w].0, dv));
    }
}

proof fn lemma_next_index(
    ixs: Seq<WorkspaceIndex>,
    document: Seq<char>,
    variants: Seq<(RuledDiagnostic, Vec<WorkspaceInstanceId>)>,
    k: int,
)
    requires
        0 <= k < ixs.len(),
        variants_ok(ixs, document, variants, k, ixs[k].derived.semantic_diagnostics@.len() as int),
    ensures
        variants_ok(ixs, document, variants, k + 1, 0),
{
    assert forall|w: int, x: WorkspaceInstanceId|
        0 <= w < variants.len() implies (#[trigger] variants[w].1@.contains(x) <==> seen_by(ixs, k + 1, 0, x, variants[w].0)) by {
        lemma_seen_next_index(ixs, k, x, variants[w].0);
    }
}

proof fn lemma_found_variant(
    ixs: Seq<WorkspaceIndex>,
    document: Seq<char>,
    before: Seq<(RuledDiagnostic, Vec<WorkspaceInstanceId>)>,
    after: Seq<(RuledDiagnostic, Vec<WorkspaceInstanceId>)>,
    k: int,
    m: int,
    v: int,
)
    requires
        0 <= k < ixs.len(),
        0 <= m < ixs[k].derived.semantic_diagnostics@.len(),
        about(ixs[k].derived.semantic_diagnostics@[m], document),
        variants_ok(ixs, document, before, k, m),
        0 <= v < before.len(),
        diag_equal(before[v].0, ixs[k].derived.semantic_diagnostics@[m]),
        after.len() == before.len(),
        after[v].0 == before[v].0,
        after[v].1@.no_duplicates(),
        forall|x: WorkspaceInstanceId| after[v].1@.contains(x) <==> (before[v].1@.contains(x) || x == ixs[k].id),
        forall|w: int| 0 <= w < before.len() && w != v ==> after[w] == before[w],
    ensures
        variants_ok(ixs, document, after, k, m + 1),
{
    let dv = ixs[k].derived.semantic_diagnostics@[m];
    assert forall|w: int| 0 <= w < after.len() implies (#[trigger] after[w]).0 == before[w].0 by {
        if w != v {
            assert(after[w] == before[w]);
        }
    }
    assert forall|w: int, x: WorkspaceInstanceId|
        0 <= w < after.len() implies (#[trigger] after[w].1@.contains(x) <==> seen_by(ixs, k, m + 1, x, after[w].0)) by {
        lemma_seen_step(ixs, k, m, x, before[w].0);
        if w != v {
            assert(after[w] == before[w]);
            if diag_equal(before[w].0, dv) {
                lemma_diag_equal_sym(before[v].0, dv);
                lemma_diag_equal_trans(before[w].0, dv, before[v].0);
                if w < v {
                    assert(!diag_equal(before[w].0, before[v].0));
                } else {
                    lemma_diag_equal_sym(before[w].0, before[v].0);
                    assert(!diag_equal(before[v].0, before[w].0));
                }
            }
        }
    }
    assert forall|w: int| 0 <= w < after.len() implies (#[trigger] after[w]).1@.no_duplicates() by {
        if w != v {
            assert(after[w] == before[w]);
        }
    }
    assert forall|w1: int, w2: int|
        0 <= w1 < w2 < after.len() implies !diag_equal((#[trigger] after[w1]).0, (#[trigger] after[w2]).0) by {
        assert(after[w1].0 == before[w1].0 && after[w2].0 == before[w2].0);
    }
    assert forall|k2: int, m2: int|
        0 <= k2 < ixs.len() && 0 <= m2 < ixs[k2].derived.semantic_diagnostics@.len() && (k2 < k || (k2 == k && m2 < m
            + 1)) && about(#[trigger] ixs[k2].derived.semantic_diagnostics@[m2], document) implies has_variant(
        after,
        ixs[k2].derived.semantic_diagnostics@[m2],
    ) by {
        let e = ixs[k2].derived.semantic_diagnostics@[m2];
        if k2 == k && m2 == m {
            assert(diag_equal(after[v].0, e));
        } else {
            assert(has_variant(before, e));
            let w = choose|w: int| 0 <= w < before.len() && diag_equal((#[trigger] before[w]).0, e);
            assert(after[w].0 == before[w].0);
            assert(diag_equal(after[w].0, e));
        }
    }
}

proof fn lemma_new_variant(
    ixs: Seq<WorkspaceIndex>,
    document: Seq<char>,
    before: Seq<(RuledDiagnostic, Vec<WorkspaceInstanceId>)>,
    after: Seq<(RuledDiagnostic, Vec<WorkspaceInstanceId>)>,
    k: int,
    m: int,
)
    requires
        0 <= k < ixs.len(),
        0 <= m < ixs[k].derived.semantic_diagnostics@.len(),
        about(ixs[k].derived.semantic_diagnostics@[m], document),
        variants_ok(ixs, document, before, k, m),
        forall|w: int| 0 <= w < before.len() ==> !diag_equal(#[trigger] before[w].0, ixs[k].derived.semantic_diagnostics@[m]),
        after.len() == before.len() + 1,
        forall|w: int| 0 <= w < before.len() ==> after[w] == before[w],
        diag_equal(after[before.len() as int].0, ixs[k].derived.semantic_diagnostics@[m]),
        diag_equal(ixs[k].derived.semantic_diagnostics@[m], after[before.len() as int].0),
        after[before.len() as int].1@ == seq![ixs[k].id],
    ensures
        variants_ok(ixs, document, after, k, m + 1),
{
    let dv = ixs[k].derived.semantic_diagnostics@[m];
    let n = before.len() as int;
    let c = after[n].0;
    assert(!has_variant(before, dv)) by {
        if has_variant(before, dv) {
            let w = choose|w: int| 0 <= w < before.len() && diag_equal((#[trigger] before[w]).0, dv);
        }
    }
    assert(about(c, document));
    assert(!has_variant(before, c)) by {
        if has_variant(before, c) {
            let w = choose|w: int| 0 <= w < before.len() && diag_equal((#[trigger] before[w]).0, c);
            lemma_diag_equal_trans(before[w].0, c, dv);
        }
    }
    assert(reported_somewhere(ixs, c)) by {
        lemma_diag_equal_sym(c, dv);
        assert(diag_equal(c, ixs[k].derived.semantic_diagnostics@[m]));
    }
    assert forall|w: int, x: WorkspaceInstanceId|
        0 <= w < after.len() implies (#[trigger] after[w].1@.contains(x) <==> seen_by(ixs, k, m + 1, x, after[w].0)) by {
        if w < n {
            assert(after[w] == before[w]);
            lemma_seen_step(ixs, k, m, x, before[w].0);
        } else {
            lemma_seen_step(ixs, k, m, x, c);
            lemma_not_seen_before(ixs, document, before, k, m, c, x);
            if x == ixs[k].id {
                assert(after[w].1@[0] == x);
            }
        }
    }
    assert forall|w: int| 0 <= w < after.len() implies (#[trigger] after[w]).1@.no_duplicates() by {
        if w < n {
            assert(after[w] == before[w]);
        }
    }
    assert forall|w1: int, w2: int|
        0 <= w1 < w2 < after.len() implies !diag_equal((#[trigger] after[w1]).0, (#[trigger] after[w2]).0) by {
        if w2 == n {
            assert(after[w1] == before[w1]);
            if diag_equal(before[w1].0, c) {
                lemma_diag_equal_trans(before[w1].0, c, dv);
            }
        } else {
            assert(after[w1] == before[w1] && after[w2] == before[w2]);
        }
    }
    assert forall|w: int| 0 <= w < after.len() implies about((#[trigger] after[w]).0, document) && reported_somewhere(
        ixs,
        after[w].0,
    ) by {
        if w < n {
            assert(after[w] == before[w]);
        }
    }
    assert forall|k2: int, m2: int|
        0 <= k2 < ixs.len() && 0 <= m2 < ixs[k2].derived.semantic_diagnostics@.len() && (k2 < k || (k2 == k && m2 < m
            + 1)) && about(#[trigger] ixs[k2].derived.semantic_diagnostics@[m2], document) implies has_variant(
        after,
        ixs[k2].derived.semantic_diagnostics@[m2],
    ) by {
        let e = ixs[k2].derived.semantic_diagnostics@[m2];
        if k2 == k && m2 == m {
            assert(diag_equal(after[n].0, e));
        } else {
            assert(has_variant(before, e));
            let w = choose|w: int| 0 <= w < before.len() && diag_equal((#[trigger] before[w]).0, e);
            assert(after[w] == before[w]);
            assert(diag_equal(after[w].0, e));
        }
    }
}

fn add_instance_distinct(ids: &mut Vec<WorkspaceInstanceId>, id: WorkspaceInstanceId)
    requires
        old(ids)@.no_duplicates(),
    ensures
        final(ids)@.no_duplicates(),
        forall|x: WorkspaceInstanceId| final(ids)@.contains(x) <==> (old(ids)@.contains(x) || x == id),
{
    let mut i: usize = 0;
    while i < ids.len()
        invariant
            i <= ids@.len(),
            ids@ == old(ids)@,
            old(ids)@.no_duplicates(),
            forall|k: int| 0 <= k < i ==> ids@[k] != id,
        decreases ids@.len() - i,
    {
        if ids[i].0 == id.0 {
            assert(ids@[i as int] == id);
            return ;
        }
        i = i + 1;
    }
    let ghost before = ids@;
    ids.push(id);
    assert(ids@.no_duplicates()) by {
        assert forall|a: int, b: int| 0 <= a < ids@.len() && 0 <= b < ids@.len() && a != b implies ids@[a] != ids@[b] by {
            if a < before.len() && b < before.len() {
                assert(ids@[a] == before[a] && ids@[b] == before[b]);
            } else if a < before.len() {
                assert(ids@[a] == before[a]);
            } else if b < before.len() {
                assert(ids@[b] == before[b]);
            }
        }
    }
    assert forall|x: WorkspaceInstanceId| ids@.contains(x) <==> (before.contains(x) || x == id) by {
        if before.contains(x) {
            let k = choose|k: int| 0 <= k < before.len() && before[k] == x;
            assert(ids@[k] == x);
        }
        if x == id {
            assert(ids@[before.len() as int] == x);
        }
        if ids@.contains(x) {
            let k = choose|k: int| 0 <= k < ids@.len() && ids@[k] == x;
            if k < before.len() {
                assert(before[k] == x);
            }
        }
    }
}

/// The result holds the same report as `d`.
pub open spec fn kept(r: Seq<RuledDiagnostic>, d: RuledDiagnostic) -> bool {
    exists|j: int| 0 <= j < r.len() && diag_equal(#[trigger] r[j], d)
}

/// Every instance that reports `d` is listed in `ids` once, `ids` lists nothing else, and
/// there are as many of them as instances listed for entry `i`, whose document `d` is about.
pub open spec fn agreed(
    indexes: Seq<WorkspaceIndex>,
    documents: Seq<(DocumentId, Vec<WorkspaceInstanceId>)>,
    i: int,
    d: RuledDiagnostic,
    ids: Seq<WorkspaceInstanceId>,
) -> bool {
    &&& 0 <= i < documents.len()
    &&& about(d, documents[i].0@)
    &&& ids.no_duplicates()
    &&& forall|x: WorkspaceInstanceId| #[trigger] ids.contains(x) <==> reported_by(indexes, x, d)
    &&& ids.len() == documents[i].1@.len()
}

proof fn lemma_seen_all(indexes: Seq<WorkspaceIndex>, x: WorkspaceInstanceId, d: RuledDiagnostic)
    ensures
        seen_by(indexes, indexes.len() as int, 0, x, d) == reported_by(indexes, x, d),
{
}

proof fn lemma_reported_by_equal(indexes: Seq<WorkspaceIndex>, x: WorkspaceInstanceId, a: RuledDiagnostic, b: RuledDiagnostic)
    requires
        diag_equal(a, b),
    ensures
        reported_by(indexes, x, a) == reported_by(indexes, x, b),
{
    lemma_diag_equal_sym(a, b);
    if reported_by(indexes, x, a) {
        let k = choose|k: int| 0 <= k < indexes.len() && (#[trigger] indexes[k]).id == x && index_reports(indexes[k], a);
        let ds = indexes[k].derived.semantic_diagnostics@;
        let m = choose|m: int| 0 <= m < ds.len() && m < ds.len() && diag_equal(a, #[trigger] ds[m]);
        lemma_diag_equal_trans(b, a, ds[m]);
        assert(index_reports(indexes[k], b));
    }
    if reported_by(indexes, x, b) {
        let k = choose|k: int| 0 <= k < indexes.len() && (#[trigger] indexes[k]).id == x && index_reports(indexes[k], b);
        let ds = indexes[k].derived.semantic_diagnostics@;
        let m = choose|m: int| 0 <= m < ds.len() && m < ds.len() && diag_equal(b, #[trigger] ds[m]);
        lemma_diag_equal_trans(a, b, ds[m]);
        assert(index_reports(indexes[k], a));
    }
}

proof fn lemma_same_members_same_len(s1: Seq<WorkspaceInstanceId>, s2: Seq<WorkspaceInstanceId>)
    requires
        s1.no_duplicates(),
        s2.no_duplicates(),
        forall|x: WorkspaceInstanceId| s1.contains(x) <==> s2.contains(x),
    ensures
        s1.len() == s2.len(),
{
    s1.unique_seq_to_set();
    s2.unique_seq_to_set();
    assert(s1.to_set() =~= s2.to_set());
}

proof fn lemma_kept_push(r: Seq<RuledDiagnostic>, y: RuledDiagnostic)
    ensures
        forall|d: RuledDiagnostic| kept(r, d) ==> #[trigger] kept(r.push(y), d),
{
    assert forall|d: RuledDiagnostic| kept(r, d) implies #[trigger] kept(r.push(y), d) by {
        let j = choose|j: int| 0 <= j < r.len() && diag_equal(#[trigger] r[j], d);
        assert(r.push(y)[j] == r[j]);
    }
}

/// The agreement law holds for the first `n` entries of `documents`.
pub open spec fn agreement_upto(
    indexes: Seq<WorkspaceIndex>,
    documents: Seq<(DocumentId, Vec<WorkspaceInstanceId>)>,
    merged: Seq<RuledDiagnostic>,
    n: int,
) -> bool {
    forall|i2: int, k: int, m: int, ids: Seq<WorkspaceInstanceId>|
        0 <= i2 < n && 0 <= k < indexes.len() && 0 <= m < indexes[k].derived.semantic_diagnostics@.len()
            && #[trigger] agreed(indexes, documents, i2, indexes[k].derived.semantic_diagnostics@[m], ids) ==> kept(
            merged,
            indexes[k].derived.semantic_diagnostics@[m],
        )
}

/// Each of the first `n` variants that `total` instances report is kept.
pub open spec fn variants_kept(
    variants: Seq<(RuledDiagnostic, Vec<WorkspaceInstanceId>)>,
    total: int,
    merged: Seq<RuledDiagnostic>,
    n: int,
) -> bool {
    forall|w: int| 0 <= w < n && (#[trigger] variants[w]).1@.len() == total ==> kept(merged, variants[w].0)
}

proof fn lemma_laws_push(
    indexes: Seq<WorkspaceIndex>,
    documents: Seq<(DocumentId, Vec<WorkspaceInstanceId>)>,
    variants: Seq<(RuledDiagnostic, Vec<WorkspaceInstanceId>)>,
    total: int,
    merged: Seq<RuledDiagnostic>,
    y: RuledDiagnostic,
    n: int,
    v: int,
)
    requires
        agreement_upto(indexes, documents, merged, n),
        variants_kept(variants, total, merged, v),
    ensures
        agreement_upto(indexes, documents, merged.push(y), n),
        variants_kept(variants, total, merged.push(y), v),
{
    lemma_kept_push(merged, y);
}

/// `x` is a disagreement report on `document` for the report `d`: at its span, with its
/// message followed by the count of contexts.
pub open spec fn disagreement_for(x: RuledDiagnostic, document: Seq<char>, d: RuledDiagnostic) -> bool {
    &&& code_of(x) == "semantic.multi-context-disagreement"@
    &&& about(x, document)
    &&& x.diagnostic.span == d.diagnostic.span
    &&& d.diagnostic.message@.len() <= x.diagnostic.message@.len()
    &&& x.diagnostic.message@.take(d.diagnostic.message@.len() as int) == d.diagnostic.message@
}

/// The result holds a disagreement report on `document` for `d`.
pub open spec fn flagged(r: Seq<RuledDiagnostic>, document: Seq<char>, d: RuledDiagnostic) -> bool {
    exists|j: int| 0 <= j < r.len() && disagreement_for(#[trigger] r[j], document, d)
}

/// Every report about one of the first `n` listed documents is kept or flagged.
pub open spec fn covered_upto(
    indexes: Seq<WorkspaceIndex>,
    documents: Seq<(DocumentId, Vec<WorkspaceInstanceId>)>,
    merged: Seq<RuledDiagnostic>,
    n: int,
) -> bool {
    forall|i: int, k: int, m: int|
        #![trigger documents[i], indexes[k].derived.semantic_diagnostics@[m]]
        0 <= i < n && 0 <= k < indexes.len() && 0 <= m < indexes[k].derived.semantic_diagnostics@.len() && about(
            indexes[k].derived.semantic_diagnostics@[m],
            documents[i].0@,
        ) ==> kept(merged, indexes[k].derived.semantic_diagnostics@[m]) || flagged(
            merged,
            documents[i].0@,
            indexes[k].derived.semantic_diagnostics@[m],
        )
}

/// Variant `w` sits in a group whose representative has the same merge key.
pub open spec fn grouped(
    variants: Seq<(RuledDiagnostic, Vec<WorkspaceInstanceId>)>,
    groups: Seq<(usize, Vec<WorkspaceInstanceId>, Vec<Annotation>)>,
    w: int,
) -> bool {
    exists|g: int|
        0 <= g < groups.len() && (#[trigger] groups[g]).0 < variants.len() && merge_key_equal(
            variants[groups[g].0 as int].0,
            variants[w].0,
        )
}

proof fn lemma_flagged_push(r: Seq<RuledDiagnostic>, y: RuledDiagnostic)
    ensures
        forall|document: Seq<char>, d: RuledDiagnostic| flagged(r, document, d) ==> #[trigger] flagged(r.push(y), document, d),
{
    assert forall|document: Seq<char>, d: RuledDiagnostic| flagged(r, document, d) implies #[trigger] flagged(
        r.push(y),
        document,
        d,
    ) by {
        let j = choose|j: int| 0 <= j < r.len() && disagreement_for(#[trigger] r[j], document, d);
        assert(r.push(y)[j] == r[j]);
    }
}

proof fn lemma_covered_push(
    indexes: Seq<WorkspaceIndex>,
    documents: Seq<(DocumentId, Vec<WorkspaceInstanceId>)>,
    merged: Seq<RuledDiagnostic>,
    y: RuledDiagnostic,
    n: int,
)
    requires
        covered_upto(indexes, documents, merged, n),
    ensures
        covered_upto(indexes, documents, merged.push(y), n),
{
    lemma_kept_push(merged, y);
    lemma_flagged_push(merged, y);
}

/// The agreement law for the variants of entry `i`, given that each variant that every
/// listed instance reports is kept.
proof fn lemma_agreed_kept(
    indexes: Seq<WorkspaceIndex>,
    documents: Seq<(DocumentId, Vec<WorkspaceInstanceId>)>,
    i: int,
    variants: Seq<(RuledDiagnostic, Vec<WorkspaceInstanceId>)>,
    merged: Seq<RuledDiagnostic>,
    k: int,
    m: int,
    ids: Seq<WorkspaceInstanceId>,
)
    requires
        0 <= i < documents.len(),
        variants_ok(indexes, documents[i].0@, variants, indexes.len() as int, 0),
        forall|w: int|
            0 <= w < variants.len() && (#[trigger] variants[w]).1@.len() == documents[i].1@.len() ==> kept(merged, variants[w].0),
        0 <= k < indexes.len(),
        0 <= m < indexes[k].derived.semantic_diagnostics@.len(),
        agreed(indexes, documents, i, indexes[k].derived.semantic_diagnostics@[m], ids),
    ensures
        kept(merged, indexes[k].derived.semantic_diagnostics@[m]),
{
    let d = indexes[k].derived.semantic_diagnostics@[m];
    assert(has_variant(variants, d));
    let w = choose|w: int| 0 <= w < variants.len() && diag_equal((#[trigger] variants[w]).0, d);
    let rep = variants[w].0;
    assert forall|x: WorkspaceInstanceId| variants[w].1@.contains(x) <==> ids.contains(x) by {
        lemma_seen_all(indexes, x, rep);
        lemma_reported_by_equal(indexes, x, rep, d);
        assert(variants[w].1@.contains(x) <==> seen_by(indexes, indexes.len() as int, 0, x, variants[w].0));
    }
    lemma_same_members_same_len(variants[w].1@, ids);
    assert(kept(merged, rep));
    let j = choose|j: int| 0 <= j < merged.len() && diag_equal(#[trigger] merged[j], rep);
    lemma_diag_equal_trans(merged[j], rep, d);
}

proof fn lemma_document_covered(
    indexes: Seq<WorkspaceIndex>,
    documents: Seq<(DocumentId, Vec<WorkspaceInstanceId>)>,
    i: int,
    variants: Seq<(RuledDiagnostic, Vec<WorkspaceInstanceId>)>,
    groups: Seq<(usize, Vec<WorkspaceInstanceId>, Vec<Annotation>)>,
    merged: Seq<RuledDiagnostic>,
)
    requires
        0 <= i < documents.len(),
        variants_ok(indexes, documents[i].0@, variants, indexes.len() as int, 0),
        variants_kept(variants, documents[i].1@.len() as int, merged, variants.len() as int),
        forall|w: int|
            0 <= w < variants.len() && (#[trigger] variants[w]).1@.len() != documents[i].1@.len() ==> grouped(
                variants,
                groups,
                w,
            ),
        forall|g: int|
            0 <= g < groups.len() && (#[trigger] groups[g]).0 < variants.len() ==> flagged(
                merged,
                documents[i].0@,
                variants[groups[g].0 as int].0,
            ),
        covered_upto(indexes, documents, merged, i),
    ensures
        covered_upto(indexes, documents, merged, i + 1),
{
    assert forall|i2: int, k: int, m: int|
        #![trigger documents[i2], indexes[k].derived.semantic_diagnostics@[m]]
        0 <= i2 < i + 1 && 0 <= k < indexes.len() && 0 <= m < indexes[k].derived.semantic_diagnostics@.len() && about(
            indexes[k].derived.semantic_diagnostics@[m],
            documents[i2].0@,
        ) implies kept(merged, indexes[k].derived.semantic_diagnostics@[m]) || flagged(
        merged,
        documents[i2].0@,
        indexes[k].derived.semantic_diagnostics@[m],
    ) by {
        if i2 == i {
            let d = indexes[k].derived.semantic_diagnostics@[m];
            assert(has_variant(variants, d));
            let w = choose|w: int| 0 <= w < variants.len() && diag_equal((#[trigger] variants[w]).0, d);
            if variants[w].1@.len() == documents[i].1@.len() {
                assert(kept(merged, variants[w].0));
                let j = choose|j: int| 0 <= j < merged.len() && diag_equal(#[trigger] merged[j], variants[w].0);
                lemma_diag_equal_trans(merged[j], variants[w].0, d);
            } else {
                assert(grouped(variants, groups, w));
                let g = choose|g: int|
                    0 <= g < groups.len() && (#[trigger] groups[g]).0 < variants.len() && merge_key_equal(
                        variants[groups[g].0 as int].0,
                        variants[w].0,
                    );
                let rep = variants[groups[g].0 as int].0;
                assert(flagged(merged, documents[i].0@, rep));
                let j = choose|j: int| 0 <= j < merged.len() && disagreement_for(#[trigger] merged[j], documents[i].0@, rep);
                assert(disagreement_for(merged[j], documents[i].0@, d));
            }
        }
    }
}

/// Puts variant `v` into the group whose representative has its merge key, or into a new
/// group of its own, collecting the group's instances and related context.
fn place_variant(
    groups: &mut Vec<(usize, Vec<WorkspaceInstanceId>, Vec<Annotation>)>,
    variants: &Vec<(RuledDiagnostic, Vec<WorkspaceInstanceId>)>,
    v: usize,
)
    requires
        v < variants@.len(),
        forall|h: int| 0 <= h < old(groups)@.len() ==> (#[trigger] old(groups)@[h]).0 < variants@.len(),
    ensures
        forall|h: int| 0 <= h < final(groups)@.len() ==> (#[trigger] final(groups)@[h]).0 < variants@.len(),
        grouped(variants@, final(groups)@, v as int),
        forall|w: int| 0 <= w < variants@.len() && grouped(variants@, old(groups)@, w) ==> grouped(variants@, final(groups)@, w),
{
    let d = &variants[v].0;
    let ids = &variants[v].1;
    let ghost g0 = groups@;
    let mut g: usize = 0;
    let mut placed = false;
    while g < groups.len() && !placed
        invariant
            v < variants@.len(),
            *d == variants@[v as int].0,
            g <= groups@.len(),
            groups@.len() == g0.len(),
            g0 == old(groups)@,
            forall|h: int| 0 <= h < groups@.len() ==> (#[trigger] groups@[h]).0 == g0[h].0,
            forall|h: int| 0 <= h < groups@.len() ==> (#[trigger] groups@[h]).0 < variants@.len(),
            placed ==> g < groups@.len() && merge_key_equal(variants@[groups@[g as int].0 as int].0, variants@[v as int].0),
        decreases groups@.len() - g, if placed { 0int } else { 1int },
    {
        let rep = groups[g].0;
        if same_merge_key(&variants[rep].0, d) {
            let ghost gb = groups@;
            let (r0, mut gids, mut notes) = groups.remove(g);
            let mut t: usize = 0;
            while t < ids.len()
                decreases ids@.len() - t,
            {
                add_instance(&mut gids, ids[t]);
                t = t + 1;
            }
            add_annotations(&mut notes, &d.diagnostic.annotations);
            groups.insert(g, (r0, gids, notes));
            proof {
                assert forall|h: int| 0 <= h < groups@.len() implies (#[trigger] groups@[h]).0 == gb[h].0 by {
                    if h < g {
                        assert(groups@[h] == gb[h]);
                    } else if h > g {
                        assert(groups@[h] == gb[h]);
                    }
                }
            }
            placed = true;
        } else {
            g = g + 1;
        }
    }
    if !placed {
        let mut gids: Vec<WorkspaceInstanceId> = Vec::new();
        let mut t: usize = 0;
        while t < ids.len()
            decreases ids@.len() - t,
        {
            add_instance(&mut gids, ids[t]);
            t = t + 1;
        }
        let mut notes: Vec<Annotation> = Vec::new();
        add_annotations(&mut notes, &d.diagnostic.annotations);
        groups.push((v, gids, notes));
        proof {
            assert(groups@[g0.len() as int].0 == v);
            assert(grouped(variants@, groups@, v as int));
        }
    } else {
        proof {
            assert(grouped(variants@, groups@, v as int));
        }
    }
    proof {
        assert forall|w: int| 0 <= w < variants@.len() && grouped(variants@, g0, w) implies grouped(variants@, groups@, w) by {
            let gg = choose|gg: int|
                0 <= gg < g0.len() && (#[trigger] g0[gg]).0 < variants@.len() && merge_key_equal(
                    variants@[g0[gg].0 as int].0,
                    variants@[w].0,
                );
            assert(groups@[gg].0 == g0[gg].0);
        }
    }
}

/// Merges the instances' semantic diagnostics, document by document: a report every instance
/// containing the document makes is kept as it is; the others become, per group of variants
/// that differ only in related context, one disagreement report counting the instances that
/// made any variant and carrying every variant's related context. The result is sorted.
pub fn merge_semantic_diagnostics(
    workspace_indexes: &Vec<WorkspaceIndex>,
    document_instances: &Vec<(DocumentId, Vec<WorkspaceInstanceId>)>,
) -> (r: Vec<RuledDiagnostic>)
    ensures
        diags_sorted(r@, true),
        forall|j: int| 0 <= j < r@.len() ==> merged_from(workspace_indexes@, document_instances@, #[trigger] r@[j]),
        forall|i: int, k: int, m: int, ids: Seq<WorkspaceInstanceId>|
            0 <= k < workspace_indexes@.len() && 0 <= m < workspace_indexes@[k].derived.semantic_diagnostics@.len()
                && #[trigger] agreed(
                workspace_indexes@,
                document_instances@,
                i,
                workspace_indexes@[k].derived.semantic_diagnostics@[m],
                ids,
            ) ==> kept(r@, workspace_indexes@[k].derived.semantic_diagnostics@[m]),
        covered_upto(workspace_indexes@, document_instances@, r@, document_instances@.len() as int),
{
    let mut merged: Vec<RuledDiagnostic> = Vec::new();
    let mut i: usize = 0;
    while i < document_instances.len()
        invariant
            i <= document_instances@.len(),
            forall|j: int|
                0 <= j < merged@.len() ==> merged_from(workspace_indexes@, document_instances@, #[trigger] merged@[j]),
            agreement_upto(workspace_indexes@, document_instances@, merged@, i as int),
            covered_upto(workspace_indexes@, document_instances@, merged@, i as int),
        decreases document_instances@.len() - i,
    {
        let document = &document_instances[i].0;
        let total = document_instances[i].1.len();
        let variants = document_variants(workspace_indexes, document);
        let mut groups: Vec<(usize, Vec<WorkspaceInstanceId>, Vec<Annotation>)> = Vec::new();
        let mut v: usize = 0;
        while v < variants.len()
            invariant
                i < document_instances@.len(),
                *document == document_instances@[i as int].0,
                v <= variants@.len(),
                forall|w: int| 0 <= w < variants@.len() ==> reported_somewhere(workspace_indexes@, #[trigger] variants@[w].0),
                forall|g: int| 0 <= g < groups@.len() ==> (#[trigger] groups@[g]).0 < variants@.len(),
                forall|j: int|
                    0 <= j < merged@.len() ==> merged_from(workspace_indexes@, document_instances@, #[trigger] merged@[j]),
                total == document_instances@[i as int].1@.len(),
                variants_ok(workspace_indexes@, document_instances@[i as int].0@, variants@, workspace_indexes@.len() as int, 0),
                agreement_upto(workspace_indexes@, document_instances@, merged@, i as int),
                variants_kept(variants@, total as int, merged@, v as int),
                covered_upto(workspace_indexes@, document_instances@, merged@, i as int),
                forall|w: int| 0 <= w < v && (#[trigger] variants@[w]).1@.len() != total ==> grouped(variants@, groups@, w),
            decreases variants@.len() - v,
        {
            let (d, ids) = (&variants[v].0, &variants[v].1);
            if ids.len() == total {
                let copy = d.clone();
                proof {
                    assert(diag_equal(copy, variants@[v as int].0));
                    let (k, m) = choose|k: int, m: int|
                        0 <= k < workspace_indexes@.len() && 0 <= m < workspace_indexes@[k].derived.semantic_diagnostics@.len()
                            && diag_equal(variants@[v as int].0, #[trigger] workspace_indexes@[k].derived.semantic_diagnostics@[m]);
                    assert(diag_equal(copy, workspace_indexes@[k].derived.semantic_diagnostics@[m]));
                }
                let ghost before = merged@;
                merged.push(copy);
                proof {
                    assert forall|j: int| 0 <= j < merged@.len() implies merged_from(
                        workspace_indexes@,
                        document_instances@,
                        #[trigger] merged@[j],
                    ) by {
                        if j < before.len() {
                            assert(merged@[j] == before[j]);
                        }
                    }
                    lemma_laws_push(workspace_indexes@, document_instances@, variants@, total as int, before, copy, i as int, v as int);
                    lemma_covered_push(workspace_indexes@, document_instances@, before, copy, i as int);
                    assert(merged@[before.len() as int] == copy);
                    assert(kept(merged@, variants@[v as int].0));
                    assert(variants_kept(variants@, total as int, merged@, v + 1));
                }
            } else {
                place_variant(&mut groups, &variants, v);
            }
            v = v + 1;
        }
        let mut g: usize = 0;
        while g < groups.len()
            invariant
                i < document_instances@.len(),
                *document == document_instances@[i as int].0,
                g <= groups@.len(),
                forall|h: int| 0 <= h < groups@.len() ==> (#[trigger] groups@[h]).0 < variants@.len(),
                forall|j: int|
                    0 <= j < merged@.len() ==> merged_from(workspace_indexes@, document_instances@, #[trigger] merged@[j]),
                total == document_instances@[i as int].1@.len(),
                variants_ok(workspace_indexes@, document_instances@[i as int].0@, variants@, workspace_indexes@.len() as int, 0),
                agreement_upto(workspace_indexes@, document_instances@, merged@, i as int),
                variants_kept(variants@, total as int, merged@, variants@.len() as int),
                covered_upto(workspace_indexes@, document_instances@, merged@, i as int),
                forall|g2: int|
                    0 <= g2 < g && (#[trigger] groups@[g2]).0 < variants@.len() ==> flagged(
                        merged@,
                        document_instances@[i as int].0@,
                        variants@[groups@[g2].0 as int].0,
                    ),
            decreases groups@.len() - g,
        {
            let rep = &variants[groups[g].0].0;
            let mut d = RuledDiagnostic::multi_context_disagreement(
                document,
                rep.diagnostic.message.as_str(),
                groups[g].1.len(),
                total,
                rep.diagnostic.span,
            );
            d.diagnostic.annotations = crate::diagnostics::clone_annotations(&groups[g].2);
            proof {
                assert(doc_key(d.diagnostic.document) == Some(document_instances@[i as int].0@));
            }
            let ghost before = merged@;
            merged.push(d);
            proof {
                assert forall|j: int| 0 <= j < merged@.len() implies merged_from(
                    workspace_indexes@,
                    document_instances@,
                    #[trigger] merged@[j],
                ) by {
                    if j < before.len() {
                        assert(merged@[j] == before[j]);
                    }
                }
                lemma_laws_push(
                    workspace_indexes@,
                    document_instances@,
                    variants@,
                    total as int,
                    before,
                    d,
                    i as int,
                    variants@.len() as int,
                );
                lemma_covered_push(workspace_indexes@, document_instances@, before, d, i as int);
                lemma_flagged_push(before, d);
                let rv = variants@[groups@[g as int].0 as int].0;
                assert(d.diagnostic.message@.take(rv.diagnostic.message@.len() as int) =~= rv.diagnostic.message@);
                assert(disagreement_for(merged@[before.len() as int], document_instances@[i as int].0@, rv));
                assert forall|g2: int|
                    0 <= g2 < g + 1 && (#[trigger] groups@[g2]).0 < variants@.len() implies flagged(
                        merged@,
                        document_instances@[i as int].0@,
                        variants@[groups@[g2].0 as int].0,
                    ) by {
                    if g2 == g {
                        assert(disagreement_for(merged@[before.len() as int], document_instances@[i as int].0@, variants@[groups@[g2].0 as int].0));
                    }
                }
            }
            g = g + 1;
        }
        proof {
            lemma_document_covered(workspace_indexes@, document_instances@, i as int, variants@, groups@, merged@);
            assert forall|i2: int, k: int, m: int, ids: Seq<WorkspaceInstanceId>|
                0 <= i2 < i + 1 && 0 <= k < workspace_indexes@.len() && 0 <= m
                    < workspace_indexes@[k].derived.semantic_diagnostics@.len() && #[trigger] agreed(
                    workspace_indexes@,
                    document_instances@,
                    i2,
                    workspace_indexes@[k].derived.semantic_diagnostics@[m],
                    ids,
                ) implies kept(merged@, workspace_indexes@[k].derived.semantic_diagnostics@[m]) by {
                if i2 == i {
                    lemma_agreed_kept(workspace_indexes@, document_instances@, i as int, variants@, merged@, k, m, ids);
                }
            }
        }
        i = i + 1;
    }
    let ghost unsorted = merged@;
    let r = sort_semantic_diagnostics(merged);
    proof {
        assert forall|j: int| 0 <= j < r@.len() implies merged_from(workspace_indexes@, document_instances@, #[trigger] r@[j]) by {
            vstd::seq_lib::to_multiset_contains(r@, r@[j]);
            vstd::seq_lib::to_multiset_contains(unsorted, r@[j]);
            let k = choose|k: int| 0 <= k < unsorted.len() && unsorted[k] == r@[j];
        }
        assert forall|i: int, k: int, m: int, ids: Seq<WorkspaceInstanceId>|
            0 <= k < workspace_indexes@.len() && 0 <= m < workspace_indexes@[k].derived.semantic_diagnostics@.len()
                && #[trigger] agreed(
                workspace_indexes@,
                document_instances@,
                i,
                workspace_indexes@[k].derived.semantic_diagnostics@[m],
                ids,
            ) implies kept(r@, workspace_indexes@[k].derived.semantic_diagnostics@[m]) by {
            let dd = workspace_indexes@[k].derived.semantic_diagnostics@[m];
            assert(kept(unsorted, dd));
            let j = choose|j: int| 0 <= j < unsorted.len() && diag_equal(#[trigger] unsorted[j], dd);
            vstd::seq_lib::to_multiset_contains(unsorted, unsorted[j]);
            vstd::seq_lib::to_multiset_contains(r@, unsorted[j]);
            let j2 = choose|j2: int| 0 <= j2 < r@.len() && r@[j2] == unsorted[j];
            assert(diag_equal(r@[j2], dd));
        }
        assert forall|i: int, k: int, m: int|
            #![trigger document_instances@[i], workspace_indexes@[k].derived.semantic_diagnostics@[m]]
            0 <= i < document_instances@.len() && 0 <= k < workspace_indexes@.len() && 0 <= m
                < workspace_indexes@[k].derived.semantic_diagnostics@.len() && about(
                workspace_indexes@[k].derived.semantic_diagnostics@[m],
                document_instances@[i].0@,
            ) implies kept(r@, workspace_indexes@[k].derived.semantic_diagnostics@[m]) || flagged(
            r@,
            document_instances@[i].0@,
            workspace_indexes@[k].derived.semantic_diagnostics@[m],
        ) by {
            let dd = workspace_indexes@[k].derived.semantic_diagnostics@[m];
            if kept(unsorted, dd) {
                let j = choose|j: int| 0 <= j < unsorted.len() && diag_equal(#[trigger] unsorted[j], dd);
                vstd::seq_lib::to_multiset_contains(unsorted, unsorted[j]);
                vstd::seq_lib::to_multiset_contains(r@, unsorted[j]);
                let j2 = choose|j2: int| 0 <= j2 < r@.len() && r@[j2] == unsorted[j];
                assert(diag_equal(r@[j2], dd));
            } else {
                assert(flagged(unsorted, document_instances@[i].0@, dd));
                let j = choose|j: int| 0 <= j < unsorted.len() && disagreement_for(#[trigger] unsorted[j], document_instances@[i].0@, dd);
                vstd::seq_lib::to_multiset_contains(unsorted, unsorted[j]);
                vstd::seq_lib::to_multiset_contains(r@, unsorted[j]);
                let j2 = choose|j2: int| 0 <= j2 < r@.len() && r@[j2] == unsorted[j];
                assert(disagreement_for(r@[j2], document_instances@[i].0@, dd));
            }
        }
    }
    r
}

} // verus!
