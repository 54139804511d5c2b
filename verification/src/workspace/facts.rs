//! The facts of one workspace load: its documents, its instances, its includes, and the
//! diagnostics of both.

use vstd::prelude::*;
use vstd::seq_lib::to_multiset_insert;

use crate::diagnostics::RuledDiagnostic;
use crate::rule::{lemma_seq_lt_asym, lemma_seq_lt_irreflexive, lemma_seq_lt_total, lemma_seq_lt_trans, seq_lt, str_lt};
use crate::snapshot::{DocumentId, DocumentSnapshot};
use crate::workspace::contexts::{
    build_workspace_index,
    workspace_index_ok,
    distinct_documents,
    contexts_have_facts,
    contexts_well_formed,
    has_facts,
    ProcessedDocumentContext,
};
use crate::workspace::index::{check_facts_well_formed, documents_well_formed, facts_well_formed, WorkspaceSemanticDocumentFacts};
use crate::workspace::loader::{build_contexts, context_follows, document_stop, context_processed, contexts_sound, recorded_include_from_directive, discovered_path, include_ok, LoadRequest, is_start_path, paths_sorted, start_context_paths, stop_progress, BuildStop, ContextBuild, LoadWorld, WorkspaceRoot};
use crate::workspace::instance::WorkspaceIndex;
use crate::workspace::model::{ResolvedInclude, WorkspaceDocumentKind, WorkspaceInstanceId};
use crate::workspace::resources::PathStatus;
use crate::workspace::cycles::cycle_report;
use crate::workspace::include_findings::{findings, include_diagnostics, reports_all};
use crate::workspace::merge::{agreed, covered_upto, kept, merge_semantic_diagnostics, merged_from};
use crate::workspace::ordering::{diags_sorted, doc_key};

verus! {

/// One discovered document plus what loading learned about it.
pub struct WorkspaceDocument {
    /// The analyzed document.
    pub snapshot: DocumentSnapshot,
    /// The workspace-relevant facts of the document.
    pub semantic_facts: WorkspaceSemanticDocumentFacts,
    /// The document's role in the discovered set.
    pub kind: WorkspaceDocumentKind,
    /// The generation of the semantic facts, bumped when they change.
    pub semantic_generation: u64,
    /// Whether broad `.dsl` scanning found the document.
    pub discovered_by_scan: bool,
}

impl WorkspaceDocument {
    /// A discovered document with its workspace-relevant facts.
    pub fn new(snapshot: DocumentSnapshot, semantic_generation: u64, discovered_by_scan: bool) -> (r: Self)
        ensures
            r.snapshot == snapshot,
            r.semantic_facts.document_id == snapshot.id,
            r.kind == (if snapshot.syntax_facts.is_workspace_entry {
                WorkspaceDocumentKind::Entry
            } else {
                WorkspaceDocumentKind::Fragment
            }),
            r.semantic_generation == semantic_generation,
            r.discovered_by_scan == discovered_by_scan,
    {
        let semantic_facts = WorkspaceSemanticDocumentFacts::from_snapshot(&snapshot);
        let kind = if snapshot.syntax_facts.is_workspace_entry {
            WorkspaceDocumentKind::Entry
        } else {
            WorkspaceDocumentKind::Fragment
        };
        WorkspaceDocument { snapshot, semantic_facts, kind, semantic_generation, discovered_by_scan }
    }

    /// Returns the document identifier.
    pub fn id(&self) -> (r: &DocumentId)
        ensures
            *r == self.snapshot.id,
    {
        &self.snapshot.id
    }

    /// Returns the analyzed snapshot.
    pub fn snapshot(&self) -> (r: &DocumentSnapshot)
        ensures
            *r == self.snapshot,
    {
        &self.snapshot
    }

    /// Returns the workspace-relevant facts.
    pub fn semantic_facts(&self) -> (r: &WorkspaceSemanticDocumentFacts)
        ensures
            *r == self.semantic_facts,
    {
        &self.semantic_facts
    }

    /// Returns the semantic generation.
    pub fn semantic_generation(&self) -> (r: u64)
        ensures
            r == self.semantic_generation,
    {
        self.semantic_generation
    }

    /// Returns the document's role.
    pub fn kind(&self) -> (r: WorkspaceDocumentKind)
        ensures
            r == self.kind,
    {
        self.kind
    }

    /// Returns whether broad `.dsl` scanning found this document; documents reached only
    /// through `!include` report `false`.
    pub fn discovered_by_scan(&self) -> (r: bool)
        ensures
            r == self.discovered_by_scan,
    {
        self.discovered_by_scan
    }

    /// Records that broad scanning found this document.
    pub fn mark_discovered_by_scan(&mut self)
        ensures
            final(self).discovered_by_scan,
            final(self).snapshot == old(self).snapshot,
            final(self).semantic_facts == old(self).semantic_facts,
            final(self).kind == old(self).kind,
            final(self).semantic_generation == old(self).semantic_generation,
    {
        self.discovered_by_scan = true;
    }
}

/// Builds one index per start context, numbered in order.
pub fn build_workspace_indexes(
    contexts: &Vec<ProcessedDocumentContext>,
    start_contexts: &Vec<usize>,
    facts: &[&WorkspaceSemanticDocumentFacts],
    statuses: &Vec<(String, PathStatus)>,
) -> (r: Vec<WorkspaceIndex>)
    requires
        forall|j: int| 0 <= j < start_contexts@.len() ==> (#[trigger] start_contexts@[j]) < contexts@.len(),
        contexts_well_formed(contexts@),
        contexts_have_facts(contexts@, facts@),
        documents_well_formed(facts@),
    ensures
        r@.len() == start_contexts@.len(),
        forall|j: int| 0 <= j < r@.len() ==> (#[trigger] r@[j]).id == WorkspaceInstanceId(j as usize),
        forall|j: int|
            0 <= j < r@.len() ==> (#[trigger] r@[j]).derived.root_document@
                == contexts@[start_contexts@[j] as int].key.path@,
        forall|j: int|
            0 <= j < r@.len() ==> workspace_index_ok(#[trigger] r@[j], contexts@, start_contexts@[j], facts@, statuses@),
{
    let mut r: Vec<WorkspaceIndex> = Vec::new();
    let mut j: usize = 0;
    while j < start_contexts.len()
        invariant
            j <= start_contexts@.len(),
            forall|k: int| 0 <= k < start_contexts@.len() ==> (#[trigger] start_contexts@[k]) < contexts@.len(),
            contexts_well_formed(contexts@),
            contexts_have_facts(contexts@, facts@),
            documents_well_formed(facts@),
            r@.len() == j,
            forall|k: int| 0 <= k < j ==> (#[trigger] r@[k]).id == WorkspaceInstanceId(k as usize),
            forall|k: int|
                0 <= k < j ==> (#[trigger] r@[k]).derived.root_document@ == contexts@[start_contexts@[k] as int].key.path@,
            forall|k: int|
                0 <= k < j ==> workspace_index_ok(#[trigger] r@[k], contexts@, start_contexts@[k], facts@, statuses@),
        decreases start_contexts@.len() - j,
    {
        let index = build_workspace_index(WorkspaceInstanceId(j), contexts, start_contexts[j], facts, statuses);
        r.push(index);
        j = j + 1;
    }
    r
}

/// Whether `d` has an entry in a document table.
pub open spec fn has_document_entry(t: Seq<(DocumentId, Vec<WorkspaceInstanceId>)>, d: Seq<char>) -> bool {
    exists|i: int| 0 <= i < t.len() && (#[trigger] t[i]).0@ == d
}

/// Whether instance `id` includes document `d`.
pub open spec fn instance_includes(indexes: Seq<WorkspaceIndex>, id: WorkspaceInstanceId, d: Seq<char>) -> bool {
    exists|k: int, j: int|
        0 <= k < indexes.len() && indexes[k].id == id && 0 <= j < indexes[k].derived.documents@.len()
            && (#[trigger] indexes[k].derived.documents@[j])@ == d
}

/// The table lists instance `x` for the document `d`.
pub open spec fn lists_instance(t: Seq<(DocumentId, Vec<WorkspaceInstanceId>)>, d: Seq<char>, x: WorkspaceInstanceId) -> bool {
    exists|a: int| 0 <= a < t.len() && t[a].0@ == d && t[a].1@.contains(x)
}

/// The instances the table lists for document `d`: those of its first entry for `d`, or none.
pub open spec fn entry_ids(t: Seq<(DocumentId, Vec<WorkspaceInstanceId>)>, d: Seq<char>) -> Seq<WorkspaceInstanceId>
    decreases t.len(),
{
    if t.len() == 0 {
        Seq::empty()
    } else if t[0].0@ == d {
        t[0].1@
    } else {
        entry_ids(t.drop_first(), d)
    }
}

/// How many times `docs` lists document `d`.
pub open spec fn occurrences(docs: Seq<DocumentId>, d: Seq<char>) -> nat
    decreases docs.len(),
{
    if docs.len() == 0 {
        0
    } else {
        occurrences(docs.drop_last(), d) + if docs.last()@ == d {
            1nat
        } else {
            0nat
        }
    }
}

/// The identifiers of the first `k` indexes, in index order, each as many times as the index
/// lists document `d`.
pub open spec fn listing_ids(indexes: Seq<WorkspaceIndex>, d: Seq<char>, k: int) -> Seq<WorkspaceInstanceId>
    decreases k,
{
    if k <= 0 {
        Seq::empty()
    } else {
        listing_ids(indexes, d, k - 1) + Seq::new(
            occurrences(indexes[k - 1].derived.documents@, d),
            |i: int| indexes[k - 1].id,
        )
    }
}

proof fn lemma_entry_ids_at(t: Seq<(DocumentId, Vec<WorkspaceInstanceId>)>, d: Seq<char>, q: int)
    requires
        0 <= q < t.len(),
        t[q].0@ == d,
        forall|j: int| 0 <= j < q ==> (#[trigger] t[j]).0@ != d,
    ensures
        entry_ids(t, d) == t[q].1@,
    decreases q,
{
    if q > 0 {
        assert forall|j: int| 0 <= j < q - 1 implies (#[trigger] t.drop_first()[j]).0@ != d by {
            assert(t.drop_first()[j] == t[j + 1]);
        }
        lemma_entry_ids_at(t.drop_first(), d, q - 1);
    }
}

proof fn lemma_entry_ids_none(t: Seq<(DocumentId, Vec<WorkspaceInstanceId>)>, d: Seq<char>)
    requires
        forall|j: int| 0 <= j < t.len() ==> (#[trigger] t[j]).0@ != d,
    ensures
        entry_ids(t, d) == Seq::<WorkspaceInstanceId>::empty(),
    decreases t.len(),
{
    if t.len() > 0 {
        assert forall|j: int| 0 <= j < t.len() - 1 implies (#[trigger] t.drop_first()[j]).0@ != d by {
            assert(t.drop_first()[j] == t[j + 1]);
        }
        lemma_entry_ids_none(t.drop_first(), d);
    }
}

/// In a table sorted strictly by document, the entry for `d` is the one at any position naming
/// `d`, and there is none when no position names it.
proof fn lemma_entry_ids_sorted(t: Seq<(DocumentId, Vec<WorkspaceInstanceId>)>, d: Seq<char>)
    requires
        forall|a: int, b: int| 0 <= a < b < t.len() ==> seq_lt((#[trigger] t[a]).0@, (#[trigger] t[b]).0@),
    ensures
        forall|q: int| 0 <= q < t.len() && t[q].0@ == d ==> entry_ids(t, d) == #[trigger] t[q].1@,
        (forall|j: int| 0 <= j < t.len() ==> (#[trigger] t[j]).0@ != d) ==> entry_ids(t, d) == Seq::<
            WorkspaceInstanceId,
        >::empty(),
{
    assert forall|q: int| 0 <= q < t.len() && t[q].0@ == d implies entry_ids(t, d) == #[trigger] t[q].1@ by {
        assert forall|j: int| 0 <= j < q implies (#[trigger] t[j]).0@ != d by {
            assert(seq_lt(t[j].0@, t[q].0@));
            crate::rule::lemma_seq_lt_irreflexive(d);
        }
        lemma_entry_ids_at(t, d, q);
    }
    if forall|j: int| 0 <= j < t.len() ==> (#[trigger] t[j]).0@ != d {
        lemma_entry_ids_none(t, d);
    }
}

/// The document table of some indexes: documents in name order, each listed once, each with
/// instances that include it, and every document of every instance listed.
pub open spec fn document_instances_ok(
    workspace_indexes: Seq<WorkspaceIndex>,
    r: Seq<(DocumentId, Vec<WorkspaceInstanceId>)>,
) -> bool {
    &&& forall|a: int, b: int| 0 <= a < b < r.len() ==> seq_lt((#[trigger] r[a]).0@, (#[trigger] r[b]).0@)
    &&& forall|a: int, k: int|
        0 <= a < r.len() && 0 <= k < r[a].1@.len() ==> instance_includes(workspace_indexes, #[trigger] r[a].1@[k], r[a].0@)
    &&& forall|k: int, j: int|
        0 <= k < workspace_indexes.len() && 0 <= j < workspace_indexes[k].derived.documents@.len()
            ==> has_document_entry(r, (#[trigger] workspace_indexes[k].derived.documents@[j])@)
    &&& forall|k: int, j: int|
        0 <= k < workspace_indexes.len() && 0 <= j < workspace_indexes[k].derived.documents@.len() ==> lists_instance(
            r,
            (#[trigger] workspace_indexes[k].derived.documents@[j])@,
            workspace_indexes[k].id,
        )
    &&& forall|d: Seq<char>| #[trigger] entry_ids(r, d) == listing_ids(workspace_indexes, d, workspace_indexes.len() as int)
}

/// For each document of some instance, the instances that include it: documents in name
/// order, each listed once, with its instances in index order.
pub fn build_document_instances(workspace_indexes: &Vec<WorkspaceIndex>) -> (r: Vec<(DocumentId, Vec<WorkspaceInstanceId>)>)
    ensures
        document_instances_ok(workspace_indexes@, r@),
{
    let mut r: Vec<(DocumentId, Vec<WorkspaceInstanceId>)> = Vec::new();
    let mut k: usize = 0;
    while k < workspace_indexes.len()
        invariant
            k <= workspace_indexes@.len(),
            forall|a: int, b: int| 0 <= a < b < r@.len() ==> seq_lt((#[trigger] r@[a]).0@, (#[trigger] r@[b]).0@),
            forall|a: int, m: int|
                0 <= a < r@.len() && 0 <= m < r@[a].1@.len() ==> instance_includes(
                    workspace_indexes@,
                    #[trigger] r@[a].1@[m],
                    r@[a].0@,
                ),
            forall|k2: int, j: int|
                0 <= k2 < k && 0 <= j < workspace_indexes@[k2].derived.documents@.len() ==> has_document_entry(
                    r@,
                    (#[trigger] workspace_indexes@[k2].derived.documents@[j])@,
                ),
            forall|k2: int, j: int|
                0 <= k2 < k && 0 <= j < workspace_indexes@[k2].derived.documents@.len() ==> lists_instance(
                    r@,
                    (#[trigger] workspace_indexes@[k2].derived.documents@[j])@,
                    workspace_indexes@[k2].id,
                ),
            forall|d: Seq<char>| #[trigger] entry_ids(r@, d) == listing_ids(workspace_indexes@, d, k as int),
        decreases workspace_indexes@.len() - k,
    {
        let index = &workspace_indexes[k];
        let mut j: usize = 0;
        while j < index.derived.documents.len()
            invariant
                k < workspace_indexes@.len(),
                *index == workspace_indexes@[k as int],
                j <= index.derived.documents@.len(),
                forall|a: int, b: int| 0 <= a < b < r@.len() ==> seq_lt((#[trigger] r@[a]).0@, (#[trigger] r@[b]).0@),
                forall|a: int, m: int|
                    0 <= a < r@.len() && 0 <= m < r@[a].1@.len() ==> instance_includes(
                        workspace_indexes@,
                        #[trigger] r@[a].1@[m],
                        r@[a].0@,
                    ),
                forall|k2: int, j2: int|
                    ((0 <= k2 < k) || (k2 == k && j2 < j)) && 0 <= j2 < workspace_indexes@[k2].derived.documents@.len()
                        ==> has_document_entry(r@, (#[trigger] workspace_indexes@[k2].derived.documents@[j2])@),
                forall|k2: int, j2: int|
                    ((0 <= k2 < k) || (k2 == k && j2 < j)) && 0 <= j2 < workspace_indexes@[k2].derived.documents@.len()
                        ==> lists_instance(r@, (#[trigger] workspace_indexes@[k2].derived.documents@[j2])@, workspace_indexes@[k2].id),
                forall|d: Seq<char>|
                    #[trigger] entry_ids(r@, d) == listing_ids(workspace_indexes@, d, k as int) + Seq::new(
                        occurrences(index.derived.documents@.take(j as int), d),
                        |i: int| index.id,
                    ),
            decreases index.derived.documents@.len() - j,
        {
            let document = &index.derived.documents[j];
            proof {
                assert(instance_includes(workspace_indexes@, index.id, document@)) by {
                    assert(workspace_indexes@[k as int].derived.documents@[j as int] == *document);
                }
            }
            let ghost r0 = r@;
            add_document_instance(&mut r, document, index.id, Ghost(workspace_indexes@));
            proof {
                let docs = index.derived.documents@;
                assert(docs.take(j + 1).drop_last() =~= docs.take(j as int));
                assert(docs.take(j + 1).last() == *document);
                assert forall|d: Seq<char>| #[trigger] entry_ids(r@, d) == listing_ids(workspace_indexes@, d, k as int)
                    + Seq::new(occurrences(docs.take(j + 1), d), |i: int| index.id) by {
                    let n0 = occurrences(docs.take(j as int), d);
                    if d == document@ {
                        assert(Seq::new(n0 + 1, |i: int| index.id) =~= Seq::new(n0, |i: int| index.id).push(index.id));
                        assert(entry_ids(r@, d) =~= entry_ids(r0, d).push(index.id));
                    }
                }
            }
            j = j + 1;
        }
        proof {
            assert(index.derived.documents@.take(j as int) =~= index.derived.documents@);
        }
        k = k + 1;
    }
    r
}

fn add_document_instance(
    table: &mut Vec<(DocumentId, Vec<WorkspaceInstanceId>)>,
    document: &DocumentId,
    id: WorkspaceInstanceId,
    Ghost(indexes): Ghost<Seq<WorkspaceIndex>>,
)
    requires
        forall|a: int, b: int|
            0 <= a < b < old(table)@.len() ==> seq_lt((#[trigger] old(table)@[a]).0@, (#[trigger] old(table)@[b]).0@),
        forall|a: int, m: int|
            0 <= a < old(table)@.len() && 0 <= m < old(table)@[a].1@.len() ==> instance_includes(
                indexes,
                #[trigger] old(table)@[a].1@[m],
                old(table)@[a].0@,
            ),
        instance_includes(indexes, id, document@),
    ensures
        forall|a: int, b: int|
            0 <= a < b < final(table)@.len() ==> seq_lt((#[trigger] final(table)@[a]).0@, (#[trigger] final(table)@[b]).0@),
        forall|a: int, m: int|
            0 <= a < final(table)@.len() && 0 <= m < final(table)@[a].1@.len() ==> instance_includes(
                indexes,
                #[trigger] final(table)@[a].1@[m],
                final(table)@[a].0@,
            ),
        has_document_entry(final(table)@, document@),
        forall|d: Seq<char>| has_document_entry(old(table)@, d) ==> has_document_entry(final(table)@, d),
        lists_instance(final(table)@, document@, id),
        forall|d: Seq<char>, x: WorkspaceInstanceId| #[trigger] lists_instance(old(table)@, d, x) ==> lists_instance(final(table)@, d, x),
        forall|d: Seq<char>|
            #[trigger] entry_ids(final(table)@, d) == if d == document@ {
                entry_ids(old(table)@, d).push(id)
            } else {
                entry_ids(old(table)@, d)
            },
{
    let ghost old_t = table@;
    let mut p: usize = 0;
    while p < table.len() && str_lt(table[p].0.0.as_str(), document.0.as_str())
        invariant
            table@ == old_t,
            p <= table@.len(),
            forall|j: int| 0 <= j < p ==> seq_lt((#[trigger] table@[j]).0@, document@),
        decreases table.len() - p,
    {
        p = p + 1;
    }
    if p < table.len() && table[p].0.same(document) {
        let (d, mut ids) = table.remove(p);
        let ghost ids0 = ids@;
        ids.push(id);
        table.insert(p, (d, ids));
        proof {
            assert forall|a: int, b: int| 0 <= a < b < table@.len() implies seq_lt(
                (#[trigger] table@[a]).0@,
                (#[trigger] table@[b]).0@,
            ) by {
                if a != p as int {
                    assert(table@[a] == old_t[a]);
                }
                if b != p as int {
                    assert(table@[b] == old_t[b]);
                }
                assert(table@[p as int].0 == old_t[p as int].0);
            }
            assert forall|a: int, m: int|
                0 <= a < table@.len() && 0 <= m < table@[a].1@.len() implies instance_includes(
                indexes,
                #[trigger] table@[a].1@[m],
                table@[a].0@,
            ) by {
                if a != p as int {
                    assert(table@[a] == old_t[a]);
                } else if m < ids0.len() {
                    assert(table@[a].1@[m] == old_t[p as int].1@[m]);
                }
            }
            assert(table@[p as int].0@ == document@);
            assert forall|d2: Seq<char>| has_document_entry(old_t, d2) implies has_document_entry(table@, d2) by {
                let i = choose|i: int| 0 <= i < old_t.len() && (#[trigger] old_t[i]).0@ == d2;
                assert(table@[i].0@ == old_t[i].0@);
            }
            assert(table@[p as int].1@ == ids0.push(id));
            assert(table@[p as int].1@[ids0.len() as int] == id);
            assert(lists_instance(table@, document@, id));
            assert forall|d2: Seq<char>, x: WorkspaceInstanceId| #[trigger] lists_instance(old_t, d2, x) implies lists_instance(
                table@,
                d2,
                x,
            ) by {
                let a = choose|a: int| 0 <= a < old_t.len() && old_t[a].0@ == d2 && old_t[a].1@.contains(x);
                if a != p as int {
                    assert(table@[a] == old_t[a]);
                } else {
                    let m = choose|m: int| 0 <= m < old_t[a].1@.len() && old_t[a].1@[m] == x;
                    assert(table@[a].1@[m] == x);
                }
            }
            lemma_entry_ids_sorted(old_t, document@);
            lemma_entry_ids_sorted(table@, document@);
            assert(entry_ids(table@, document@) == table@[p as int].1@);
            assert forall|d2: Seq<char>| #[trigger] entry_ids(table@, d2) == if d2 == document@ {
                entry_ids(old_t, d2).push(id)
            } else {
                entry_ids(old_t, d2)
            } by {
                lemma_entry_ids_sorted(old_t, d2);
                lemma_entry_ids_sorted(table@, d2);
                if d2 == document@ {
                    assert(entry_ids(old_t, d2) == old_t[p as int].1@);
                    assert(old_t[p as int].1@ == ids0);
                } else {
                    if exists|q: int| 0 <= q < old_t.len() && old_t[q].0@ == d2 {
                        let q = choose|q: int| 0 <= q < old_t.len() && old_t[q].0@ == d2;
                        assert(q != p);
                        assert(table@[q] == old_t[q]);
                        assert(entry_ids(old_t, d2) == old_t[q].1@);
                        assert(entry_ids(table@, d2) == table@[q].1@);
                    } else {
                        assert forall|j: int| 0 <= j < table@.len() implies (#[trigger] table@[j]).0@ != d2 by {
                            if j != p {
                                assert(table@[j] == old_t[j]);
                            }
                        }
                    }
                }
            }
        }
        return ;
    }
    proof {
        if p < table@.len() {
            crate::rule::lemma_seq_lt_total(table@[p as int].0@, document@);
        }
    }
    let mut ids: Vec<WorkspaceInstanceId> = Vec::new();
    ids.push(id);
    table.insert(p, (document.clone(), ids));
    proof {
        assert forall|a: int, b: int| 0 <= a < b < table@.len() implies seq_lt(
            (#[trigger] table@[a]).0@,
            (#[trigger] table@[b]).0@,
        ) by {
            if b < p {
                assert(table@[a] == old_t[a] && table@[b] == old_t[b]);
            } else if b == p {
                assert(table@[a] == old_t[a]);
            } else if a == p {
                assert(table@[b] == old_t[b - 1]);
                if b - 1 > p {
                    lemma_seq_lt_trans(document@, old_t[p as int].0@, old_t[b - 1].0@);
                }
            } else if a < p {
                assert(table@[a] == old_t[a] && table@[b] == old_t[b - 1]);
                if b - 1 >= p {
                    lemma_seq_lt_trans(old_t[a].0@, document@, old_t[p as int].0@);
                    if b - 1 > p {
                        lemma_seq_lt_trans(old_t[a].0@, old_t[p as int].0@, old_t[b - 1].0@);
                    }
                }
            } else {
                assert(table@[a] == old_t[a - 1] && table@[b] == old_t[b - 1]);
            }
        }
        assert forall|a: int, m: int|
            0 <= a < table@.len() && 0 <= m < table@[a].1@.len() implies instance_includes(
            indexes,
            #[trigger] table@[a].1@[m],
            table@[a].0@,
        ) by {
            if a < p {
                assert(table@[a] == old_t[a]);
            } else if a > p {
                assert(table@[a] == old_t[a - 1]);
            }
        }
        assert(table@[p as int].0@ == document@);
        assert forall|d2: Seq<char>| has_document_entry(old_t, d2) implies has_document_entry(table@, d2) by {
            let i = choose|i: int| 0 <= i < old_t.len() && (#[trigger] old_t[i]).0@ == d2;
            if i < p {
                assert(table@[i] == old_t[i]);
            } else {
                assert(table@[i + 1] == old_t[i]);
            }
        }
        assert(table@[p as int].1@[0] == id);
        assert(lists_instance(table@, document@, id));
        assert forall|d2: Seq<char>, x: WorkspaceInstanceId| #[trigger] lists_instance(old_t, d2, x) implies lists_instance(
            table@,
            d2,
            x,
        ) by {
            let a = choose|a: int| 0 <= a < old_t.len() && old_t[a].0@ == d2 && old_t[a].1@.contains(x);
            if a < p {
                assert(table@[a] == old_t[a]);
            } else {
                assert(table@[a + 1] == old_t[a]);
            }
        }
        assert forall|d2: Seq<char>| #[trigger] entry_ids(table@, d2) == if d2 == document@ {
            entry_ids(old_t, d2).push(id)
        } else {
            entry_ids(old_t, d2)
        } by {
            lemma_entry_ids_sorted(old_t, d2);
            lemma_entry_ids_sorted(table@, d2);
            if d2 == document@ {
                assert forall|j: int| 0 <= j < old_t.len() implies (#[trigger] old_t[j]).0@ != d2 by {
                    if j < p {
                        assert(seq_lt(old_t[j].0@, document@));
                        crate::rule::lemma_seq_lt_irreflexive(d2);
                    } else {
                        if j > p {
                            assert(seq_lt(old_t[p as int].0@, old_t[j].0@));
                            lemma_seq_lt_trans(document@, old_t[p as int].0@, old_t[j].0@);
                        }
                        crate::rule::lemma_seq_lt_irreflexive(d2);
                    }
                }
                assert(table@[p as int].1@ =~= Seq::<WorkspaceInstanceId>::empty().push(id));
                assert(entry_ids(table@, d2) == table@[p as int].1@);
            } else {
                if exists|q: int| 0 <= q < old_t.len() && old_t[q].0@ == d2 {
                    let q = choose|q: int| 0 <= q < old_t.len() && old_t[q].0@ == d2;
                    assert(entry_ids(old_t, d2) == old_t[q].1@);
                    if q < p {
                        assert(table@[q] == old_t[q]);
                        assert(entry_ids(table@, d2) == table@[q].1@);
                    } else {
                        assert(table@[q + 1] == old_t[q]);
                        assert(entry_ids(table@, d2) == table@[q + 1].1@);
                    }
                } else {
                    assert forall|j: int| 0 <= j < table@.len() implies (#[trigger] table@[j]).0@ != d2 by {
                        if j < p {
                            assert(table@[j] == old_t[j]);
                        } else if j > p {
                            assert(table@[j] == old_t[j - 1]);
                        }
                    }
                }
            }
        }
    }
}

/// An include by its fields' views.
pub open spec fn include_view(i: ResolvedInclude) -> (Seq<char>, Seq<char>, Seq<char>, crate::span::TextSpan, crate::span::TextSpan, crate::workspace::model::WorkspaceIncludeTarget, Seq<DocumentId>) {
    (i.including_document@, i.raw_value@, i.target_text@, i.span, i.value_span, i.target, i.discovered_documents@)
}

/// Include order: by including document, then start byte, then target text.
pub open spec fn include_lt(a: ResolvedInclude, b: ResolvedInclude) -> bool {
    ||| seq_lt(a.including_document@, b.including_document@)
    ||| a.including_document@ == b.including_document@ && a.span.start_byte < b.span.start_byte
    ||| a.including_document@ == b.including_document@ && a.span.start_byte == b.span.start_byte && seq_lt(
        a.target_text@,
        b.target_text@,
    )
}

/// No later include sorts before an earlier one.
pub open spec fn includes_sorted(s: Seq<ResolvedInclude>) -> bool {
    forall|a: int, b: int| 0 <= a < b < s.len() ==> !include_lt(s[b], s[a])
}

proof fn lemma_include_lt_trans(a: ResolvedInclude, b: ResolvedInclude, c: ResolvedInclude)
    requires
        include_lt(a, b),
        include_lt(b, c),
    ensures
        include_lt(a, c),
{
    if seq_lt(a.including_document@, b.including_document@) && seq_lt(b.including_document@, c.including_document@) {
        lemma_seq_lt_trans(a.including_document@, b.including_document@, c.including_document@);
    }
    if seq_lt(a.target_text@, b.target_text@) && seq_lt(b.target_text@, c.target_text@) {
        lemma_seq_lt_trans(a.target_text@, b.target_text@, c.target_text@);
    }
}

fn include_precedes(a: &ResolvedInclude, b: &ResolvedInclude) -> (r: bool)
    ensures
        r == include_lt(*a, *b),
{
    if str_lt(a.including_document.0.as_str(), b.including_document.0.as_str()) {
        return true;
    }
    if !a.including_document.same(&b.including_document) {
        return false;
    }
    if a.span.start_byte != b.span.start_byte {
        return a.span.start_byte < b.span.start_byte;
    }
    str_lt(a.target_text.as_str(), b.target_text.as_str())
}

fn insert_include_sorted(r: &mut Vec<ResolvedInclude>, x: ResolvedInclude) -> (pos: usize)
    requires
        includes_sorted(old(r)@),
    ensures
        pos <= old(r)@.len(),
        final(r)@ == old(r)@.insert(pos as int, x),
        includes_sorted(final(r)@),
{
    let mut p: usize = 0;
    while p < r.len() && !include_precedes(&x, &r[p])
        invariant
            p <= r@.len(),
            forall|j: int| 0 <= j < p ==> !include_lt(x, #[trigger] r@[j]),
        decreases r@.len() - p,
    {
        p = p + 1;
    }
    let ghost before = r@;
    r.insert(p, x);
    proof {
        assert forall|a: int, b: int| 0 <= a < b < r@.len() implies !include_lt(r@[b], r@[a]) by {
            if b < p {
                assert(r@[a] == before[a] && r@[b] == before[b]);
            } else if b == p {
                assert(r@[a] == before[a]);
            } else if a < p {
                assert(r@[a] == before[a] && r@[b] == before[b - 1]);
            } else if a == p {
                assert(r@[b] == before[b - 1]);
                if include_lt(before[b - 1], x) {
                    if b - 1 > p {
                        assert(!include_lt(before[b - 1], before[p as int]));
                    }
                    lemma_include_lt_trans(before[b - 1], x, before[p as int]);
                    lemma_include_lt_trans(x, before[p as int], x);
                    lemma_seq_lt_irreflexive(x.including_document@);
                    lemma_seq_lt_irreflexive(x.target_text@);
                }
            } else {
                assert(r@[a] == before[a - 1] && r@[b] == before[b - 1]);
            }
        }
    }
    p
}

/// The includes of every processed context, in context order then source order.
pub open spec fn context_includes(ctxs: Seq<ProcessedDocumentContext>, n: int) -> Seq<ResolvedInclude>
    decreases n,
{
    if n <= 0 {
        Seq::empty()
    } else {
        context_includes(ctxs, n - 1) + ctxs[n - 1].direct_includes@
    }
}

/// The includes of every processed context, sorted by including document, start byte and
/// target text.
pub fn collect_resolved_includes(contexts: &Vec<ProcessedDocumentContext>) -> (r: Vec<ResolvedInclude>)
    ensures
        includes_sorted(r@),
        r@.map_values(|i: ResolvedInclude| include_view(i)).to_multiset() == context_includes(
            contexts@,
            contexts@.len() as int,
        ).map_values(|i: ResolvedInclude| include_view(i)).to_multiset(),
{
    let mut r: Vec<ResolvedInclude> = Vec::new();
    let ghost mut seen: Seq<ResolvedInclude> = Seq::empty();
    proof {
        vstd::seq_lib::to_multiset_len(r@.map_values(|i: ResolvedInclude| include_view(i)));
        vstd::multiset::lemma_multiset_empty_len(r@.map_values(|i: ResolvedInclude| include_view(i)).to_multiset());
        vstd::seq_lib::to_multiset_len(seen.map_values(|i: ResolvedInclude| include_view(i)));
        vstd::multiset::lemma_multiset_empty_len(seen.map_values(|i: ResolvedInclude| include_view(i)).to_multiset());
    }
    let mut c: usize = 0;
    while c < contexts.len()
        invariant
            c <= contexts@.len(),
            includes_sorted(r@),
            seen == context_includes(contexts@, c as int),
            r@.map_values(|i: ResolvedInclude| include_view(i)).to_multiset() == seen.map_values(
                |i: ResolvedInclude| include_view(i),
            ).to_multiset(),
        decreases contexts@.len() - c,
    {
        let incs = &contexts[c].direct_includes;
        let ghost seen0 = seen;
        let mut k: usize = 0;
        while k < incs.len()
            invariant
                c < contexts@.len(),
                *incs == contexts@[c as int].direct_includes,
                k <= incs@.len(),
                includes_sorted(r@),
                seen == seen0 + incs@.subrange(0, k as int),
                r@.map_values(|i: ResolvedInclude| include_view(i)).to_multiset() == seen.map_values(
                    |i: ResolvedInclude| include_view(i),
                ).to_multiset(),
            decreases incs@.len() - k,
        {
            let x = incs[k].clone();
            let ghost before = r@;
            let pos = insert_include_sorted(&mut r, x);
            proof {
                let f = |i: ResolvedInclude| include_view(i);
                assert(include_view(x) == include_view(incs@[k as int]));
                assert(r@.map_values(f) =~= before.map_values(f).insert(pos as int, include_view(x)));
                to_multiset_insert(before.map_values(f), pos as int, include_view(x));
                assert(seen.push(incs@[k as int]).map_values(f) =~= seen.map_values(f).push(include_view(incs@[k as int])));
                vstd::seq_lib::to_multiset_build(seen.map_values(f), include_view(incs@[k as int]));
                assert(seen0 + incs@.subrange(0, k + 1) =~= seen.push(incs@[k as int]));
                seen = seen.push(incs@[k as int]);
            }
            k = k + 1;
        }
        proof {
            assert(incs@.subrange(0, incs@.len() as int) =~= incs@);
        }
        c = c + 1;
    }
    r
}

/// Multi-file discovery facts gathered from one or more workspace roots.
pub struct WorkspaceFacts {
    /// Every discovered document, in path order.
    pub documents: Vec<WorkspaceDocument>,
    /// One index per workspace instance.
    pub workspace_indexes: Vec<WorkspaceIndex>,
    /// Every followed include, sorted.
    pub resolved_includes: Vec<ResolvedInclude>,
    /// The include diagnostics, sorted.
    pub include_diagnostics: Vec<RuledDiagnostic>,
    /// Each document with the instances that include it.
    pub document_instances: Vec<(DocumentId, Vec<WorkspaceInstanceId>)>,
    /// The merged semantic diagnostics, sorted.
    pub semantic_diagnostics: Vec<RuledDiagnostic>,
}

/// The diagnostics of `s` about document `d`, in order.
pub open spec fn diagnostics_about(s: Seq<RuledDiagnostic>, d: Seq<char>) -> Seq<RuledDiagnostic>
    decreases s.len(),
{
    if s.len() == 0 {
        Seq::empty()
    } else {
        let rest = diagnostics_about(s.drop_last(), d);
        if doc_key(s.last().diagnostic.document) == Some(d) {
            rest.push(s.last())
        } else {
            rest
        }
    }
}

fn select_about<'a>(s: &'a Vec<RuledDiagnostic>, id: &DocumentId) -> (r: Vec<&'a RuledDiagnostic>)
    ensures
        r@.map_values(|x: &RuledDiagnostic| *x) == diagnostics_about(s@, id@),
{
    let mut r: Vec<&RuledDiagnostic> = Vec::new();
    let mut i: usize = 0;
    while i < s.len()
        invariant
            i <= s@.len(),
            r@.map_values(|x: &RuledDiagnostic| *x) == diagnostics_about(s@.take(i as int), id@),
        decreases s@.len() - i,
    {
        let about = match &s[i].diagnostic.document {
            Some(d) => d.same(id),
            None => false,
        };
        assert(s@.take(i + 1).drop_last() =~= s@.take(i as int));
        let ghost before = r@;
        if about {
            r.push(&s[i]);
            assert(r@.map_values(|x: &RuledDiagnostic| *x) =~= before.map_values(|x: &RuledDiagnostic| *x).push(s@[i as int]));
        }
        i = i + 1;
    }
    assert(s@.take(s@.len() as int) =~= s@);
    r
}

/// What facts assembled from documents and processed contexts hold: the documents as given;
/// one index per start context, numbered in order, each the index of the instance rooted there;
/// the contexts' includes, sorted, with the include findings reported; and the instances'
/// semantic diagnostics merged and sorted.
pub open spec fn assembled(
    r: WorkspaceFacts,
    documents: Seq<WorkspaceDocument>,
    contexts: Seq<ProcessedDocumentContext>,
    starts: Seq<usize>,
    statuses: Seq<(String, PathStatus)>,
) -> bool {
    &&& r.documents@ == documents
    &&& r.workspace_indexes@.len() == starts.len()
    &&& forall|j: int| 0 <= j < r.workspace_indexes@.len() ==> (#[trigger] r.workspace_indexes@[j]).id == WorkspaceInstanceId(j as usize)
    &&& forall|j: int|
        0 <= j < r.workspace_indexes@.len() ==> workspace_index_ok(
            #[trigger] r.workspace_indexes@[j],
            contexts,
            starts[j],
            documents.map_values(|d: WorkspaceDocument| &d.semantic_facts),
            statuses,
        )
    &&& document_instances_ok(r.workspace_indexes@, r.document_instances@)
    &&& includes_sorted(r.resolved_includes@)
    &&& r.resolved_includes@.map_values(|i: ResolvedInclude| include_view(i)).to_multiset() == context_includes(
        contexts,
        contexts.len() as int,
    ).map_values(|i: ResolvedInclude| include_view(i)).to_multiset()
    &&& diags_sorted(r.include_diagnostics@, false)
    &&& reports_all(
        r.resolved_includes@,
        r.include_diagnostics@,
        findings(r.resolved_includes@, cycle_report(r.resolved_includes@), r.resolved_includes@.len() as int),
    )
    &&& diags_sorted(r.semantic_diagnostics@, true)
    &&& forall|j: int|
        0 <= j < r.semantic_diagnostics@.len() ==> merged_from(
            r.workspace_indexes@,
            r.document_instances@,
            #[trigger] r.semantic_diagnostics@[j],
        )
    &&& forall|i: int, k: int, m: int, ids: Seq<WorkspaceInstanceId>|
        0 <= k < r.workspace_indexes@.len() && 0 <= m < r.workspace_indexes@[k].derived.semantic_diagnostics@.len()
            && #[trigger] agreed(
            r.workspace_indexes@,
            r.document_instances@,
            i,
            r.workspace_indexes@[k].derived.semantic_diagnostics@[m],
            ids,
        ) ==> kept(r.semantic_diagnostics@, r.workspace_indexes@[k].derived.semantic_diagnostics@[m])
    &&& covered_upto(r.workspace_indexes@, r.document_instances@, r.semantic_diagnostics@, r.document_instances@.len() as int)
}

/// The entry documents of `docs`, in order.
pub open spec fn entries_of(docs: Seq<WorkspaceDocument>) -> Seq<WorkspaceDocument>
    decreases docs.len(),
{
    if docs.len() == 0 {
        Seq::empty()
    } else if docs.last().kind == WorkspaceDocumentKind::Entry {
        entries_of(docs.drop_last()).push(docs.last())
    } else {
        entries_of(docs.drop_last())
    }
}

proof fn lemma_entries_of_kind(docs: Seq<WorkspaceDocument>)
    ensures
        forall|j: int| 0 <= j < entries_of(docs).len() ==> (#[trigger] entries_of(docs)[j]).kind == WorkspaceDocumentKind::Entry,
    decreases docs.len(),
{
    if docs.len() > 0 {
        lemma_entries_of_kind(docs.drop_last());
    }
}

impl WorkspaceFacts {
    /// Assembles the facts of one load from its documents and processed contexts: one
    /// instance per start context, the sorted includes with their diagnostics, each document's
    /// instances, and the merged semantic diagnostics.
    pub fn assemble(
        documents: Vec<WorkspaceDocument>,
        contexts: &Vec<ProcessedDocumentContext>,
        start_contexts: &Vec<usize>,
        statuses: &Vec<(String, PathStatus)>,
    ) -> (r: Self)
        requires
            forall|j: int| 0 <= j < start_contexts@.len() ==> (#[trigger] start_contexts@[j]) < contexts@.len(),
            contexts_well_formed(contexts@),
            contexts_have_facts(contexts@, documents@.map_values(|d: WorkspaceDocument| &d.semantic_facts)),
            documents_well_formed(documents@.map_values(|d: WorkspaceDocument| &d.semantic_facts)),
        ensures
            assembled(r, documents@, contexts@, start_contexts@, statuses@),
    {
        let mut facts: Vec<&WorkspaceSemanticDocumentFacts> = Vec::new();
        let mut i: usize = 0;
        while i < documents.len()
            invariant
                i <= documents@.len(),
                facts@ == documents@.map_values(|d: WorkspaceDocument| &d.semantic_facts).take(i as int),
            decreases documents@.len() - i,
        {
            facts.push(&documents[i].semantic_facts);
            i = i + 1;
        }
        assert(facts@ =~= documents@.map_values(|d: WorkspaceDocument| &d.semantic_facts));
        let workspace_indexes = build_workspace_indexes(contexts, start_contexts, facts.as_slice(), statuses);
        let resolved_includes = collect_resolved_includes(contexts);
        let include_diagnostics = include_diagnostics(&resolved_includes);
        let document_instances = build_document_instances(&workspace_indexes);
        let semantic_diagnostics = merge_semantic_diagnostics(&workspace_indexes, &document_instances);
        WorkspaceFacts {
            documents,
            workspace_indexes,
            resolved_includes,
            include_diagnostics,
            document_instances,
            semantic_diagnostics,
        }
    }

    /// Returns every discovered document.
    pub fn documents(&self) -> (r: &[WorkspaceDocument])
        ensures
            r@ == self.documents@,
    {
        self.documents.as_slice()
    }

    /// Returns the followed includes in deterministic order.
    pub fn includes(&self) -> (r: &[ResolvedInclude])
        ensures
            r@ == self.resolved_includes@,
    {
        self.resolved_includes.as_slice()
    }

    /// Returns the include diagnostics in deterministic order.
    pub fn include_diagnostics(&self) -> (r: &[RuledDiagnostic])
        ensures
            r@ == self.include_diagnostics@,
    {
        self.include_diagnostics.as_slice()
    }

    /// Returns the include diagnostics about one document.
    pub fn include_diagnostics_for(&self, id: &DocumentId) -> (r: Vec<&RuledDiagnostic>)
        ensures
            r@.map_values(|x: &RuledDiagnostic| *x) == diagnostics_about(self.include_diagnostics@, id@),
    {
        select_about(&self.include_diagnostics, id)
    }

    /// Returns the documents that can act as entry roots, in document order.
    pub fn entry_documents(&self) -> (r: Vec<&WorkspaceDocument>)
        ensures
            r@.map_values(|d: &WorkspaceDocument| *d) == entries_of(self.documents@),
            forall|j: int| 0 <= j < r@.len() ==> (#[trigger] r@[j]).kind == WorkspaceDocumentKind::Entry,
    {
        let mut r: Vec<&WorkspaceDocument> = Vec::new();
        let mut i: usize = 0;
        while i < self.documents.len()
            invariant
                i <= self.documents@.len(),
                r@.map_values(|d: &WorkspaceDocument| *d) == entries_of(self.documents@.take(i as int)),
            decreases self.documents@.len() - i,
        {
            let ghost before = r@;
            proof {
                assert(self.documents@.take(i + 1).drop_last() =~= self.documents@.take(i as int));
                assert(self.documents@.take(i + 1).last() == self.documents@[i as int]);
            }
            let entry = match self.documents[i].kind {
                WorkspaceDocumentKind::Entry => true,
                WorkspaceDocumentKind::Fragment => false,
            };
            if entry {
                r.push(&self.documents[i]);
                proof {
                    assert(r@.map_values(|d: &WorkspaceDocument| *d) =~= before.map_values(|d: &WorkspaceDocument| *d).push(
                        self.documents@[i as int],
                    ));
                }
            }
            i = i + 1;
        }
        proof {
            assert(self.documents@.take(self.documents@.len() as int) =~= self.documents@);
            lemma_entries_of_kind(self.documents@);
            assert forall|j: int| 0 <= j < r@.len() implies (#[trigger] r@[j]).kind == WorkspaceDocumentKind::Entry by {
                assert(r@.map_values(|d: &WorkspaceDocument| *d)[j] == *r@[j]);
            }
        }
        r
    }

    /// Looks up one discovered document by identifier: the first with that identifier.
    pub fn document(&self, id: &DocumentId) -> (r: Option<&WorkspaceDocument>)
        ensures
            match r {
                Some(d) => d.snapshot.id@ == id@ && exists|k: int|
                    0 <= k < self.documents@.len() && self.documents@[k] == *d && forall|j: int|
                        0 <= j < k ==> (#[trigger] self.documents@[j]).snapshot.id@ != id@,
                None => forall|j: int| 0 <= j < self.documents@.len() ==> (#[trigger] self.documents@[j]).snapshot.id@ != id@,
            },
    {
        let mut i: usize = 0;
        while i < self.documents.len()
            invariant
                i <= self.documents@.len(),
                forall|j: int| 0 <= j < i ==> (#[trigger] self.documents@[j]).snapshot.id@ != id@,
            decreases self.documents@.len() - i,
        {
            if self.documents[i].snapshot.id.same(id) {
                return Some(&self.documents[i]);
            }
            i = i + 1;
        }
        None
    }

    /// Returns the derived workspace indexes.
    pub fn workspace_indexes(&self) -> (r: &[WorkspaceIndex])
        ensures
            r@ == self.workspace_indexes@,
    {
        self.workspace_indexes.as_slice()
    }

    /// Looks up one workspace index by instance identity: the first with it.
    pub fn workspace_index(&self, id: WorkspaceInstanceId) -> (r: Option<&WorkspaceIndex>)
        ensures
            match r {
                Some(x) => x.id == id && exists|k: int| 0 <= k < self.workspace_indexes@.len() && self.workspace_indexes@[k] == *x,
                None => forall|j: int| 0 <= j < self.workspace_indexes@.len() ==> (#[trigger] self.workspace_indexes@[j]).id != id,
            },
    {
        let mut i: usize = 0;
        while i < self.workspace_indexes.len()
            invariant
                i <= self.workspace_indexes@.len(),
                forall|j: int| 0 <= j < i ==> (#[trigger] self.workspace_indexes@[j]).id != id,
            decreases self.workspace_indexes@.len() - i,
        {
            if self.workspace_indexes[i].id.0 == id.0 {
                return Some(&self.workspace_indexes[i]);
            }
            i = i + 1;
        }
        None
    }

    /// Returns the candidate instances that include one document.
    pub fn candidate_instances_for(&self, id: &DocumentId) -> (r: &[WorkspaceInstanceId])
        ensures
            (exists|k: int| 0 <= k < self.document_instances@.len() && (#[trigger] self.document_instances@[k]).0@ == id@ && r@
                == self.document_instances@[k].1@) || (r@.len() == 0 && forall|k: int|
                0 <= k < self.document_instances@.len() ==> (#[trigger] self.document_instances@[k]).0@ != id@),
            r@ == entry_ids(self.document_instances@, id@),
    {
        let mut i: usize = 0;
        while i < self.document_instances.len()
            invariant
                i <= self.document_instances@.len(),
                forall|k: int| 0 <= k < i ==> (#[trigger] self.document_instances@[k]).0@ != id@,
            decreases self.document_instances@.len() - i,
        {
            if self.document_instances[i].0.same(id) {
                proof {
                    lemma_entry_ids_at(self.document_instances@, id@, i as int);
                }
                return self.document_instances[i].1.as_slice();
            }
            i = i + 1;
        }
        proof {
            lemma_entry_ids_none(self.document_instances@, id@);
        }
        &[]
    }

    /// Returns every merged semantic diagnostic in deterministic order.
    pub fn semantic_diagnostics(&self) -> (r: &[RuledDiagnostic])
        ensures
            r@ == self.semantic_diagnostics@,
    {
        self.semantic_diagnostics.as_slice()
    }

    /// Returns the merged semantic diagnostics about one document.
    pub fn semantic_diagnostics_for(&self, id: &DocumentId) -> (r: Vec<&RuledDiagnostic>)
        ensures
            r@.map_values(|x: &RuledDiagnostic| *x) == diagnostics_about(self.semantic_diagnostics@, id@),
    {
        select_about(&self.semantic_diagnostics, id)
    }
}

/// Why loading stopped before the facts could be assembled.
pub enum AssemblyStop {
    /// Building the contexts stopped: something more is needed, or the DSL failed.
    Build(BuildStop),
    /// No document was supplied for the context at this path.
    MissingFacts(String),
    /// The facts of this document break their own invariants.
    MalformedFacts(DocumentId),
    /// Two supplied documents have this identifier.
    DuplicateDocument(DocumentId),
}

proof fn lemma_context_includes_ok(world: &LoadWorld, ctxs: Seq<ProcessedDocumentContext>, n: int)
    requires
        contexts_sound(ctxs, world),
        0 <= n <= ctxs.len(),
    ensures
        forall|k: int| 0 <= k < context_includes(ctxs, n).len() ==> include_ok(world, #[trigger] context_includes(ctxs, n)[k]),
    decreases n,
{
    if n > 0 {
        lemma_context_includes_ok(world, ctxs, n - 1);
        let prev = context_includes(ctxs, n - 1);
        assert forall|k: int| 0 <= k < context_includes(ctxs, n).len() implies include_ok(
            world,
            #[trigger] context_includes(ctxs, n)[k],
        ) by {
            if k < prev.len() {
                assert(context_includes(ctxs, n)[k] == prev[k]);
            } else {
                assert(context_includes(ctxs, n)[k] == ctxs[n - 1].direct_includes@[k - prev.len()]);
            }
        }
    }
}

proof fn lemma_context_includes_from(world: &LoadWorld, ctxs: Seq<ProcessedDocumentContext>, n: int)
    requires
        contexts_sound(ctxs, world),
        0 <= n <= ctxs.len(),
    ensures
        forall|k: int|
            0 <= k < context_includes(ctxs, n).len() ==> exists|c: int|
                0 <= c < n && ctxs[c].key.path@ == (#[trigger] context_includes(ctxs, n)[k]).including_document@,
    decreases n,
{
    if n > 0 {
        lemma_context_includes_from(world, ctxs, n - 1);
        let prev = context_includes(ctxs, n - 1);
        assert forall|k: int| 0 <= k < context_includes(ctxs, n).len() implies exists|c: int|
            0 <= c < n && ctxs[c].key.path@ == (#[trigger] context_includes(ctxs, n)[k]).including_document@ by {
            if k < prev.len() {
                assert(context_includes(ctxs, n)[k] == prev[k]);
                let c = choose|c: int| 0 <= c < n - 1 && ctxs[c].key.path@ == (#[trigger] prev[k]).including_document@;
                assert(ctxs[c].key.path@ == context_includes(ctxs, n)[k].including_document@);
            } else {
                assert(context_includes(ctxs, n)[k] == ctxs[n - 1].direct_includes@[k - prev.len()]);
                assert(context_processed(world, ctxs, n - 1));
                let skip = choose|skip: Seq<Seq<char>>| #[trigger] context_follows(world, ctxs, n - 1, skip);
                recorded_include_from_directive(world, ctxs, n - 1, skip, k - prev.len());
            }
        }
    }
}

/// A document's parts agree: its facts are about its snapshot, its snapshot's identifier is the
/// path it was read from, and it is an entry exactly when its snapshot declares a top-level
/// workspace.
pub open spec fn document_consistent(d: WorkspaceDocument) -> bool {
    &&& d.semantic_facts.document_id@ == d.snapshot.id@
    &&& d.snapshot.location matches Some(l) && l.path@ == d.snapshot.id@
    &&& d.kind == (if d.snapshot.syntax_facts.is_workspace_entry {
        WorkspaceDocumentKind::Entry
    } else {
        WorkspaceDocumentKind::Fragment
    })
}

/// The documents in path order: no document's path sorts before an earlier one's.
pub open spec fn documents_in_path_order(docs: Seq<WorkspaceDocument>) -> bool {
    forall|a: int, b: int|
        0 <= a < b < docs.len() ==> !seq_lt(
            (#[trigger] docs[b]).semantic_facts.document_id@,
            (#[trigger] docs[a]).semantic_facts.document_id@,
        )
}

/// Sorts documents by path, keeping the order of documents with equal paths.
fn sort_documents(documents: Vec<WorkspaceDocument>) -> (r: Vec<WorkspaceDocument>)
    ensures
        documents_in_path_order(r@),
        r@.to_multiset() == documents@.to_multiset(),
{
    let mut rest = documents;
    let ghost all = rest@;
    let mut out: Vec<WorkspaceDocument> = Vec::new();
    proof {
        assert(out@ + rest@ =~= all);
    }
    while rest.len() > 0
        invariant
            documents_in_path_order(out@),
            (out@ + rest@).to_multiset() == all.to_multiset(),
        decreases rest@.len(),
    {
        let ghost out0 = out@;
        let ghost rest0 = rest@;
        let d = rest.remove(0);
        let mut k: usize = 0;
        while k < out.len() && !str_lt(d.semantic_facts.document_id.as_str(), out[k].semantic_facts.document_id.as_str())
            invariant
                out@ == out0,
                k <= out@.len(),
                forall|j: int| 0 <= j < k ==> !seq_lt(d.semantic_facts.document_id@, (#[trigger] out@[j]).semantic_facts.document_id@),
            decreases out@.len() - k,
        {
            k = k + 1;
        }
        let ghost did = d.semantic_facts.document_id@;
        out.insert(k, d);
        proof {
            assert(rest0 == seq![rest0[0]] + rest@);
            assert(out@ =~= out0.insert(k as int, rest0[0]));
            assert(out@ + rest@ =~= out0.insert(k as int, rest0[0]) + rest0.drop_first());
            vstd::seq_lib::lemma_multiset_commutative(out0, rest0);
            assert((out@ + rest@).to_multiset() == (out0 + rest0).to_multiset()) by {
                vstd::seq_lib::lemma_multiset_commutative(out0.insert(k as int, rest0[0]), rest0.drop_first());
                vstd::seq_lib::lemma_multiset_commutative(out0, rest0);
                vstd::seq_lib::lemma_multiset_commutative(seq![rest0[0]], rest0.drop_first());
                assert(out0.insert(k as int, rest0[0]) =~= out0.subrange(0, k as int) + seq![rest0[0]] + out0.subrange(k as int, out0.len() as int));
                vstd::seq_lib::lemma_multiset_commutative(out0.subrange(0, k as int) + seq![rest0[0]], out0.subrange(k as int, out0.len() as int));
                vstd::seq_lib::lemma_multiset_commutative(out0.subrange(0, k as int), seq![rest0[0]]);
                vstd::seq_lib::lemma_multiset_commutative(out0.subrange(0, k as int), out0.subrange(k as int, out0.len() as int));
                assert(out0 =~= out0.subrange(0, k as int) + out0.subrange(k as int, out0.len() as int));
                assert(rest0 =~= seq![rest0[0]] + rest0.drop_first());
            }
            assert forall|a: int, b: int| 0 <= a < b < out@.len() implies !seq_lt(
                (#[trigger] out@[b]).semantic_facts.document_id@,
                (#[trigger] out@[a]).semantic_facts.document_id@,
            ) by {
                let ia = out@[a].semantic_facts.document_id@;
                let ib = out@[b].semantic_facts.document_id@;
                if b < k {
                    assert(out@[a] == out0[a] && out@[b] == out0[b]);
                } else if b == k {
                    assert(out@[a] == out0[a]);
                    assert(!seq_lt(did, out0[a].semantic_facts.document_id@));
                } else if a == k {
                    assert(out@[b] == out0[b - 1]);
                    assert(seq_lt(did, out0[k as int].semantic_facts.document_id@));
                    if b - 1 > k {
                        assert(!seq_lt(out0[b - 1].semantic_facts.document_id@, out0[k as int].semantic_facts.document_id@));
                        if seq_lt(ib, did) {
                            lemma_seq_lt_trans(ib, did, out0[k as int].semantic_facts.document_id@);
                        }
                    } else {
                        lemma_seq_lt_asym(did, ib);
                    }
                } else if a < k {
                    assert(out@[a] == out0[a] && out@[b] == out0[b - 1]);
                } else {
                    assert(out@[a] == out0[a - 1] && out@[b] == out0[b - 1]);
                }
            }
        }
    }
    proof {
        assert(out@ + rest@ =~= out@);
    }
    out
}

/// The facts of a list of documents.
pub open spec fn facts_of<'a>(docs: Seq<WorkspaceDocument>) -> Seq<&'a WorkspaceSemanticDocumentFacts> {
    docs.map_values(|d: WorkspaceDocument| &d.semantic_facts)
}

proof fn lemma_permuted_facts(a: Seq<WorkspaceDocument>, b: Seq<WorkspaceDocument>)
    requires
        a.to_multiset() == b.to_multiset(),
    ensures
        forall|p: Seq<char>| has_facts(facts_of(a), p) ==> #[trigger] has_facts(facts_of(b), p),
        forall|j: int| 0 <= j < b.len() ==> a.contains(#[trigger] b[j]),
{
    let fa = facts_of(a);
    let fb = facts_of(b);
    assert forall|p: Seq<char>| has_facts(fa, p) implies #[trigger] has_facts(fb, p) by {
        let i = choose|i: int| 0 <= i < fa.len() && (#[trigger] fa[i]).document_id@ == p;
        vstd::seq_lib::to_multiset_contains(a, a[i]);
        assert(a.contains(a[i]));
        vstd::seq_lib::to_multiset_contains(b, a[i]);
        let j = choose|j: int| 0 <= j < b.len() && b[j] == a[i];
        assert(fb[j].document_id@ == p);
    }
    assert forall|j: int| 0 <= j < b.len() implies a.contains(#[trigger] b[j]) by {
        vstd::seq_lib::to_multiset_contains(b, b[j]);
        assert(b.contains(b[j]));
        vstd::seq_lib::to_multiset_contains(a, b[j]);
    }
}

/// `b` is what processing the roots' start documents in `world` built: sound contexts, and one
/// start context per start path, in path order.
pub open spec fn built_from(b: ContextBuild, world: &LoadWorld, roots: Seq<WorkspaceRoot>) -> bool {
    &&& contexts_sound(b.contexts@, world)
    &&& forall|j: int| 0 <= j < b.starts@.len() ==> (#[trigger] b.starts@[j]) < b.contexts@.len()
    &&& paths_sorted(start_context_paths(b))
    &&& forall|q: Seq<char>| #[trigger] start_context_paths(b).contains(q) <==> is_start_path(world, roots, q)
}

/// The workspace indexes of assembled facts are numbered by position: their identifiers
/// strictly increase, so an identifier names exactly one index, and looking an index up by its
/// identifier finds that index.
pub proof fn workspace_index_ids_increase(
    f: WorkspaceFacts,
    contexts: Seq<ProcessedDocumentContext>,
    starts: Seq<usize>,
    statuses: Seq<(String, PathStatus)>,
)
    requires
        assembled(f, f.documents@, contexts, starts, statuses),
    ensures
        forall|a: int, b: int|
            0 <= a < b < f.workspace_indexes@.len() ==> (#[trigger] f.workspace_indexes@[a]).id.0
                < (#[trigger] f.workspace_indexes@[b]).id.0,
        forall|a: int, b: int|
            0 <= a < f.workspace_indexes@.len() && 0 <= b < f.workspace_indexes@.len() && (#[trigger] f.workspace_indexes@[a]).id
                == (#[trigger] f.workspace_indexes@[b]).id ==> a == b,
{
    assert(forall|j: int|
        0 <= j < f.workspace_indexes@.len() ==> (#[trigger] f.workspace_indexes@[j]).id == WorkspaceInstanceId(j as usize));
    assert(f.workspace_indexes@.len() == f.workspace_indexes.len());
    lemma_numbered_ids(f.workspace_indexes@);
}

/// The instances assembled facts list for a document are, in index order, those whose index
/// lists the document, each once: their identifiers strictly increase.
pub proof fn candidate_instances_in_index_order(
    f: WorkspaceFacts,
    contexts: Seq<ProcessedDocumentContext>,
    starts: Seq<usize>,
    statuses: Seq<(String, PathStatus)>,
    d: Seq<char>,
)
    requires
        assembled(f, f.documents@, contexts, starts, statuses),
    ensures
        entry_ids(f.document_instances@, d) == listing_ids(f.workspace_indexes@, d, f.workspace_indexes@.len() as int),
        forall|a: int, b: int|
            0 <= a < b < entry_ids(f.document_instances@, d).len() ==> (#[trigger] entry_ids(f.document_instances@, d)[a]).0
                < (#[trigger] entry_ids(f.document_instances@, d)[b]).0,
{
    let ixs = f.workspace_indexes@;
    assert(entry_ids(f.document_instances@, d) == listing_ids(ixs, d, ixs.len() as int));
    assert(forall|j: int| 0 <= j < ixs.len() ==> (#[trigger] ixs[j]).id == WorkspaceInstanceId(j as usize));
    assert(forall|j: int| 0 <= j < ixs.len() ==> distinct_documents((#[trigger] ixs[j]).derived.documents@)) by {
        assert forall|j: int| 0 <= j < ixs.len() implies distinct_documents((#[trigger] ixs[j]).derived.documents@) by {
            assert(workspace_index_ok(ixs[j], contexts, starts[j], facts_of(f.documents@), statuses));
        }
    }
    assert(ixs.len() == f.workspace_indexes.len());
    lemma_listing_increasing(ixs, d, ixs.len() as int);
}

proof fn lemma_occurrences_at_most_one(docs: Seq<DocumentId>, d: Seq<char>)
    requires
        distinct_documents(docs),
    ensures
        occurrences(docs, d) <= 1,
        occurrences(docs, d) == 1 ==> exists|j: int| 0 <= j < docs.len() && (#[trigger] docs[j])@ == d,
    decreases docs.len(),
{
    if docs.len() > 0 {
        let init = docs.drop_last();
        assert forall|a: int, b: int| 0 <= a < b < init.len() implies (#[trigger] init[a])@ != (#[trigger] init[b])@ by {
            assert(init[a] == docs[a] && init[b] == docs[b]);
        }
        lemma_occurrences_at_most_one(init, d);
        if occurrences(init, d) == 1 && docs.last()@ == d {
            let j = choose|j: int| 0 <= j < init.len() && (#[trigger] init[j])@ == d;
            assert(docs[j] == init[j]);
            assert(docs[j]@ != docs[docs.len() - 1]@);
        }
        if occurrences(init, d) == 1 {
            let j = choose|j: int| 0 <= j < init.len() && (#[trigger] init[j])@ == d;
            assert(docs[j] == init[j]);
        }
        if docs.last()@ == d {
            assert(docs[docs.len() - 1]@ == d);
        }
    }
}

proof fn lemma_listing_increasing(ixs: Seq<WorkspaceIndex>, d: Seq<char>, k: int)
    requires
        0 <= k <= ixs.len(),
        ixs.len() <= usize::MAX,
        forall|j: int| 0 <= j < ixs.len() ==> (#[trigger] ixs[j]).id == WorkspaceInstanceId(j as usize),
        forall|j: int| 0 <= j < ixs.len() ==> distinct_documents((#[trigger] ixs[j]).derived.documents@),
    ensures
        forall|a: int| 0 <= a < listing_ids(ixs, d, k).len() ==> (#[trigger] listing_ids(ixs, d, k)[a]).0 < k,
        forall|a: int, b: int|
            0 <= a < b < listing_ids(ixs, d, k).len() ==> (#[trigger] listing_ids(ixs, d, k)[a]).0
                < (#[trigger] listing_ids(ixs, d, k)[b]).0,
    decreases k,
{
    if k > 0 {
        lemma_listing_increasing(ixs, d, k - 1);
        lemma_occurrences_at_most_one(ixs[k - 1].derived.documents@, d);
        let prev = listing_ids(ixs, d, k - 1);
        let cur = listing_ids(ixs, d, k);
        assert(ixs[k - 1].id.0 == k - 1);
        assert forall|a: int| 0 <= a < cur.len() implies (#[trigger] cur[a]).0 < k by {
            if a < prev.len() {
                assert(cur[a] == prev[a]);
            } else {
                assert(cur[a] == ixs[k - 1].id);
            }
        }
        assert forall|a: int, b: int| 0 <= a < b < cur.len() implies (#[trigger] cur[a]).0 < (#[trigger] cur[b]).0 by {
            if b < prev.len() {
                assert(cur[a] == prev[a] && cur[b] == prev[b]);
            } else {
                assert(b == prev.len());
                assert(cur[a] == prev[a]);
                assert(cur[b] == ixs[k - 1].id);
            }
        }
    }
}

proof fn lemma_numbered_ids(ixs: Seq<WorkspaceIndex>)
    requires
        ixs.len() <= usize::MAX,
        forall|j: int| 0 <= j < ixs.len() ==> (#[trigger] ixs[j]).id == WorkspaceInstanceId(j as usize),
    ensures
        forall|a: int, b: int| 0 <= a < b < ixs.len() ==> (#[trigger] ixs[a]).id.0 < (#[trigger] ixs[b]).id.0,
        forall|a: int, b: int|
            0 <= a < ixs.len() && 0 <= b < ixs.len() && (#[trigger] ixs[a]).id == (#[trigger] ixs[b]).id ==> a == b,
{
    assert forall|a: int| 0 <= a < ixs.len() implies (#[trigger] ixs[a]).id.0 == a by {
        assert(ixs[a].id == WorkspaceInstanceId(a as usize));
    }
}

/// A reordering of documents with distinct identifiers has distinct identifiers.
proof fn lemma_distinct_ids_permuted(docs: Seq<WorkspaceDocument>, sdocs: Seq<WorkspaceDocument>)
    requires
        sdocs.to_multiset() == docs.to_multiset(),
        forall|a: int, b: int|
            0 <= a < b < docs.len() ==> (#[trigger] docs[a]).semantic_facts.document_id@
                != (#[trigger] docs[b]).semantic_facts.document_id@,
    ensures
        forall|a: int, b: int|
            0 <= a < b < sdocs.len() ==> (#[trigger] sdocs[a]).semantic_facts.document_id@
                != (#[trigger] sdocs[b]).semantic_facts.document_id@,
{
    assert(docs.no_duplicates()) by {
        assert forall|a: int, b: int| 0 <= a < docs.len() && 0 <= b < docs.len() && a != b implies docs[a] != docs[b] by {
            if a < b {
                assert(docs[a].semantic_facts.document_id@ != docs[b].semantic_facts.document_id@);
            } else {
                assert(docs[b].semantic_facts.document_id@ != docs[a].semantic_facts.document_id@);
            }
        }
    }
    docs.lemma_multiset_has_no_duplicates();
    sdocs.lemma_multiset_has_no_duplicates_conv();
    assert forall|a: int, b: int| 0 <= a < b < sdocs.len() implies (#[trigger] sdocs[a]).semantic_facts.document_id@
        != (#[trigger] sdocs[b]).semantic_facts.document_id@ by {
        vstd::seq_lib::to_multiset_contains(sdocs, sdocs[a]);
        vstd::seq_lib::to_multiset_contains(sdocs, sdocs[b]);
        assert(sdocs.contains(sdocs[a]));
        assert(sdocs.contains(sdocs[b]));
        vstd::seq_lib::to_multiset_contains(docs, sdocs[a]);
        vstd::seq_lib::to_multiset_contains(docs, sdocs[b]);
        let i = choose|i: int| 0 <= i < docs.len() && docs[i] == sdocs[a];
        let j = choose|j: int| 0 <= j < docs.len() && docs[j] == sdocs[b];
        assert(sdocs[a] != sdocs[b]);
        assert(i != j);
        if i < j {
            assert(docs[i].semantic_facts.document_id@ != docs[j].semantic_facts.document_id@);
        } else {
            assert(docs[j].semantic_facts.document_id@ != docs[i].semantic_facts.document_id@);
        }
    }
}

/// Builds the contexts of `roots` over `world`, checks that each context's document is among
/// `documents` with well-formed facts, and assembles the workspace facts.
pub fn load_workspace_facts(
    world: &LoadWorld,
    roots: &Vec<WorkspaceRoot>,
    documents: Vec<WorkspaceDocument>,
    statuses: &Vec<(String, PathStatus)>,
) -> (r: Result<WorkspaceFacts, AssemblyStop>)
    ensures
        match r {
            Ok(f) => (exists|b: ContextBuild|
                #[trigger] built_from(b, world, roots@) && assembled(f, f.documents@, b.contexts@, b.starts@, statuses@))
                && f.documents@.to_multiset() == documents@.to_multiset()
                && documents_in_path_order(f.documents@)
                && (forall|a: int, b: int|
                    0 <= a < b < f.documents@.len() ==> (#[trigger] f.documents@[a]).semantic_facts.document_id@
                        != (#[trigger] f.documents@[b]).semantic_facts.document_id@)
                && (forall|j: int| 0 <= j < f.resolved_includes@.len() ==> include_ok(world, #[trigger] f.resolved_includes@[j]))
                && (forall|j: int|
                    0 <= j < f.resolved_includes@.len() ==> has_facts(
                        facts_of(f.documents@),
                        (#[trigger] f.resolved_includes@[j]).including_document@,
                    ))
                && forall|j: int| 0 <= j < f.documents@.len() ==> document_consistent(#[trigger] f.documents@[j]),
            Err(AssemblyStop::MissingFacts(p)) => !has_facts(documents@.map_values(|d: WorkspaceDocument| &d.semantic_facts), p@),
            Err(AssemblyStop::MalformedFacts(id)) => exists|i: int|
                0 <= i < documents@.len() && (#[trigger] documents@[i]).semantic_facts.document_id == id && (!facts_well_formed(
                    &documents@[i].semantic_facts,
                ) || !document_consistent(documents@[i])),
            Err(AssemblyStop::DuplicateDocument(id)) => exists|i: int, j: int|
                0 <= j < i < documents@.len() && (#[trigger] documents@[i]).semantic_facts.document_id@ == id@
                    && (#[trigger] documents@[j]).semantic_facts.document_id@ == id@,
            Err(AssemblyStop::Build(stop)) => stop_progress(world, stop) && (stop matches BuildStop::Need(
                LoadRequest::Document { path },
            ) ==> is_start_path(world, roots@, path@) || discovered_path(world, path@)) && exists|q: Seq<char>, ctxs: Seq<ProcessedDocumentContext>|
                #[trigger] is_start_path(world, roots@, q) && contexts_sound(ctxs, world) && #[trigger] document_stop(
                    world,
                    q,
                    Seq::<(String, String)>::empty(),
                    Seq::<Seq<char>>::empty(),
                    ctxs,
                    stop,
                ),
        },
{
    let build = match build_contexts(world, roots) {
        Ok(b) => b,
        Err(stop) => return Err(AssemblyStop::Build(stop)),
    };
    let ghost fs = documents@.map_values(|d: WorkspaceDocument| &d.semantic_facts);
    let mut i: usize = 0;
    while i < documents.len()
        invariant
            i <= documents@.len(),
            fs == documents@.map_values(|d: WorkspaceDocument| &d.semantic_facts),
            forall|j: int| 0 <= j < i ==> facts_well_formed(#[trigger] fs[j]),
            forall|j: int| 0 <= j < i ==> document_consistent(#[trigger] documents@[j]),
        decreases documents@.len() - i,
    {
        let d = &documents[i];
        let entry = match d.kind {
            WorkspaceDocumentKind::Entry => true,
            WorkspaceDocumentKind::Fragment => false,
        };
        let located = match &d.snapshot.location {
            Some(l) => crate::text::str_eq(l.path.as_str(), d.snapshot.id.as_str()),
            None => false,
        };
        if entry != d.snapshot.syntax_facts.is_workspace_entry || !d.semantic_facts.document_id.same(&d.snapshot.id)
            || !located {
            return Err(AssemblyStop::MalformedFacts(documents[i].semantic_facts.document_id.clone()));
        }
        if !check_facts_well_formed(&documents[i].semantic_facts) {
            return Err(AssemblyStop::MalformedFacts(documents[i].semantic_facts.document_id.clone()));
        }
        i = i + 1;
    }
    let mut i: usize = 0;
    while i < documents.len()
        invariant
            i <= documents@.len(),
            forall|a: int, b: int|
                0 <= a < b < i ==> (#[trigger] documents@[a]).semantic_facts.document_id@
                    != (#[trigger] documents@[b]).semantic_facts.document_id@,
        decreases documents@.len() - i,
    {
        let mut j: usize = 0;
        while j < i
            invariant
                i < documents@.len(),
                j <= i,
                forall|a: int| 0 <= a < j ==> (#[trigger] documents@[a]).semantic_facts.document_id@
                    != documents@[i as int].semantic_facts.document_id@,
            decreases i - j,
        {
            if documents[j].semantic_facts.document_id.same(&documents[i].semantic_facts.document_id) {
                return Err(AssemblyStop::DuplicateDocument(documents[i].semantic_facts.document_id.clone()));
            }
            j = j + 1;
        }
        i = i + 1;
    }
    let mut c: usize = 0;
    while c < build.contexts.len()
        invariant
            c <= build.contexts@.len(),
            fs == documents@.map_values(|d: WorkspaceDocument| &d.semantic_facts),
            forall|k: int| 0 <= k < c ==> has_facts(fs, (#[trigger] build.contexts@[k]).key.path@),
        decreases build.contexts@.len() - c,
    {
        let path = build.contexts[c].key.path.as_str();
        let mut found = false;
        let mut k: usize = 0;
        while k < documents.len() && !found
            invariant
                k <= documents@.len(),
                fs == documents@.map_values(|d: WorkspaceDocument| &d.semantic_facts),
                found ==> has_facts(fs, path@),
                !found ==> forall|m: int| 0 <= m < k ==> (#[trigger] fs[m]).document_id@ != path@,
            decreases documents@.len() - k, if found { 0int } else { 1int },
        {
            if crate::text::str_eq(documents[k].semantic_facts.document_id.as_str(), path) {
                assert(fs[k as int].document_id@ == path@);
                found = true;
            } else {
                k = k + 1;
            }
        }
        if !found {
            return Err(AssemblyStop::MissingFacts(build.contexts[c].key.path.clone()));
        }
        c = c + 1;
    }
    let ghost docs = documents@;
    let sorted = sort_documents(documents);
    let ghost sdocs = sorted@;
    proof {
        lemma_permuted_facts(docs, sdocs);
        assert(facts_of(docs) =~= fs);
        assert forall|k: int| 0 <= k < build.contexts@.len() implies has_facts(
            facts_of(sdocs),
            (#[trigger] build.contexts@[k]).key.path@,
        ) by {
            assert(has_facts(fs, build.contexts@[k].key.path@));
        }
        assert forall|j: int| 0 <= j < sdocs.len() implies facts_well_formed(#[trigger] facts_of(sdocs)[j])
            && document_consistent(sdocs[j]) by {
            assert(docs.contains(sdocs[j]));
            let i = choose|i: int| 0 <= i < docs.len() && docs[i] == sdocs[j];
            assert(facts_well_formed(fs[i]));
        }
        assert(facts_of(sdocs) =~= sdocs.map_values(|d: WorkspaceDocument| &d.semantic_facts));
        lemma_distinct_ids_permuted(docs, sdocs);
    }
    let facts = WorkspaceFacts::assemble(sorted, &build.contexts, &build.starts, statuses);
    proof {
        assert(built_from(build, world, roots@));
        assert(assembled(facts, sdocs, build.contexts@, build.starts@, statuses@));
        lemma_context_includes_ok(world, build.contexts@, build.contexts@.len() as int);
        lemma_context_includes_from(world, build.contexts@, build.contexts@.len() as int);
        let cv = context_includes(build.contexts@, build.contexts@.len() as int).map_values(|i: ResolvedInclude| include_view(i));
        let rv = facts.resolved_includes@.map_values(|i: ResolvedInclude| include_view(i));
        assert forall|j: int| 0 <= j < facts.resolved_includes@.len() implies include_ok(world, #[trigger] facts.resolved_includes@[j]) by {
            assert(rv[j] == include_view(facts.resolved_includes@[j]));
            vstd::seq_lib::to_multiset_contains(rv, rv[j]);
            assert(rv.contains(rv[j]));
            vstd::seq_lib::to_multiset_contains(cv, rv[j]);
            let k = choose|k: int| 0 <= k < cv.len() && cv[k] == rv[j];
            let ci = context_includes(build.contexts@, build.contexts@.len() as int)[k];
            assert(include_view(ci) == include_view(facts.resolved_includes@[j]));
            assert(include_ok(world, ci));
            assert(ci.discovered_documents@.map_values(|x: DocumentId| x@) =~= facts.resolved_includes@[j].discovered_documents@.map_values(|x: DocumentId| x@));
        }
        assert forall|j: int| 0 <= j < facts.resolved_includes@.len() implies has_facts(
            facts_of(facts.documents@),
            (#[trigger] facts.resolved_includes@[j]).including_document@,
        ) by {
            assert(rv[j] == include_view(facts.resolved_includes@[j]));
            vstd::seq_lib::to_multiset_contains(rv, rv[j]);
            assert(rv.contains(rv[j]));
            vstd::seq_lib::to_multiset_contains(cv, rv[j]);
            let k = choose|k: int| 0 <= k < cv.len() && cv[k] == rv[j];
            let ci = context_includes(build.contexts@, build.contexts@.len() as int)[k];
            assert(include_view(ci) == include_view(facts.resolved_includes@[j]));
            let c = choose|c: int|
                0 <= c < build.contexts@.len() && build.contexts@[c].key.path@ == (#[trigger] context_includes(
                    build.contexts@,
                    build.contexts@.len() as int,
                )[k]).including_document@;
            assert(has_facts(facts_of(sdocs), build.contexts@[c].key.path@));
        }
    }
    Ok(facts)
}

} // verus!
