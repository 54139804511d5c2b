//! The processed document contexts of one load, and the documents each workspace instance
//! gathers from them.
//!
//! A context is one document processed under one set of inherited constants. Contexts link to
//! the context of their `workspace extends` base and to the contexts of the documents they
//! include, by position in the list of processed contexts.

use vstd::prelude::*;

use crate::includes::DirectiveContainer;
use crate::snapshot::DocumentId;
use crate::symbols::IdentifierMode;
use crate::workspace::bindings::{document_workspace_identifier_mode, last_mode};
use crate::workspace::index::{documents_well_formed, facts_well_formed, WorkspaceSemanticDocumentFacts};
use crate::workspace::instance::{build_derived_workspace_instance, derived_instance_ok, WorkspaceIndex};
use crate::workspace::model::{ResolvedInclude, WorkspaceInstanceId};
use crate::workspace::resources::PathStatus;
use crate::workspace::substitution::ConstantEnvironment;

verus! {

/// Identity of one processed context: a document path and the constants it inherited.
pub struct DocumentContextKey {
    /// The document's path.
    pub path: String,
    /// The inherited constants, by name.
    pub inherited_constants: Vec<(String, String)>,
}

/// What processing one context produced.
pub struct ProcessedDocumentContext {
    /// The context's identity.
    pub key: DocumentContextKey,
    /// The constants in force after the document's last directive.
    pub exported_constants: ConstantEnvironment,
    /// The context of the extended base workspace, if any.
    pub workspace_base_context: Option<usize>,
    /// The document's own includes, in source order.
    pub direct_includes: Vec<ResolvedInclude>,
    /// The contexts of the included documents, in processing order.
    pub included_contexts: Vec<usize>,
}

/// The identifier of the document at a path.
pub fn document_id_from_path(path: &str) -> (r: DocumentId)
    ensures
        r@ == path@,
{
    DocumentId(crate::text::owned(path))
}

/// The contexts a context depends on: its base first, then its includes; or only its includes
/// when just the definition is collected.
pub open spec fn children_of(c: ProcessedDocumentContext, definition_only: bool) -> Seq<usize> {
    if definition_only {
        c.included_contexts@
    } else {
        match c.workspace_base_context {
            Some(b) => seq![b] + c.included_contexts@,
            None => c.included_contexts@,
        }
    }
}

/// The base context, then the included contexts.
pub fn processed_context_dependency_keys(processed: &ProcessedDocumentContext) -> (r: Vec<usize>)
    ensures
        r@ == children_of(*processed, false),
{
    let mut r: Vec<usize> = Vec::new();
    match processed.workspace_base_context {
        Some(b) => r.push(b),
        None => {},
    }
    let mut i: usize = 0;
    let ghost start = r@;
    while i < processed.included_contexts.len()
        invariant
            i <= processed.included_contexts@.len(),
            r@ == start + processed.included_contexts@.subrange(0, i as int),
        decreases processed.included_contexts@.len() - i,
    {
        r.push(processed.included_contexts[i]);
        i = i + 1;
    }
    assert(processed.included_contexts@.subrange(0, processed.included_contexts@.len() as int)
        =~= processed.included_contexts@);
    assert(r@ =~= children_of(*processed, false));
    r
}

/// Every link of the contexts stays inside the list.
pub open spec fn contexts_well_formed(ctxs: Seq<ProcessedDocumentContext>) -> bool {
    forall|c: int, k: int|
        0 <= c < ctxs.len() && 0 <= k < children_of(ctxs[c], false).len() ==> #[trigger] children_of(
            ctxs[c],
            false,
        )[k] < ctxs.len()
}

/// Whether `b` is one of the positions listed in `s`.
pub open spec fn lists_child(s: Seq<usize>, b: int) -> bool {
    exists|k: int| 0 <= k < s.len() && (#[trigger] s[k]) as int == b
}

/// Context `b` is a dependency of context `a`.
pub open spec fn steps(ctxs: Seq<ProcessedDocumentContext>, d: bool, a: int, b: int) -> bool {
    0 <= a < ctxs.len() && lists_child(children_of(ctxs[a], d), b)
}

/// `w` walks from context to dependency.
pub open spec fn is_walk(ctxs: Seq<ProcessedDocumentContext>, d: bool, w: Seq<int>) -> bool {
    &&& w.len() >= 1
    &&& forall|j: int| 0 <= j < w.len() - 1 ==> #[trigger] steps(ctxs, d, w[j], w[j + 1])
}

/// Context `t` is reached from context `s` by following dependencies.
pub open spec fn reachable(ctxs: Seq<ProcessedDocumentContext>, d: bool, s: int, t: int) -> bool {
    exists|w: Seq<int>| #[trigger] is_walk(ctxs, d, w) && w[0] == s && w.last() == t
}

/// How many of the first `n` contexts are not yet visited.
pub open spec fn unvisited(v: Seq<bool>, n: int) -> nat
    decreases n,
{
    if n <= 0 {
        0
    } else {
        unvisited(v, n - 1) + if !v[n - 1] {
            1nat
        } else {
            0nat
        }
    }
}

/// Marking an unvisited context lowers the count of unvisited ones.
pub proof fn lemma_unvisited_mark(v: Seq<bool>, n: int, k: int)
    requires
        0 <= k < n <= v.len(),
        !v[k],
    ensures
        unvisited(v.update(k, true), n) < unvisited(v, n),
    decreases n,
{
    if k < n - 1 {
        lemma_unvisited_mark(v, n - 1, k);
    } else {
        lemma_unvisited_same(v, v.update(k, true), n - 1);
    }
}

proof fn lemma_unvisited_same(a: Seq<bool>, b: Seq<bool>, n: int)
    requires
        n <= a.len(),
        n <= b.len(),
        forall|j: int| 0 <= j < n ==> a[j] == b[j],
    ensures
        unvisited(a, n) == unvisited(b, n),
    decreases n,
{
    if n > 0 {
        lemma_unvisited_same(a, b, n - 1);
    }
}

proof fn lemma_extend_walk(ctxs: Seq<ProcessedDocumentContext>, d: bool, s: int, c: int, ch: int)
    requires
        reachable(ctxs, d, s, c),
        steps(ctxs, d, c, ch),
    ensures
        reachable(ctxs, d, s, ch),
{
    let w = choose|w: Seq<int>| #[trigger] is_walk(ctxs, d, w) && w[0] == s && w.last() == c;
    let w2 = w.push(ch);
    assert forall|j: int| 0 <= j < w2.len() - 1 implies #[trigger] steps(ctxs, d, w2[j], w2[j + 1]) by {
        if j < w.len() - 1 {
            assert(w2[j] == w[j] && w2[j + 1] == w[j + 1]);
        } else {
            assert(w2[j] == c && w2[j + 1] == ch);
        }
    }
    assert(is_walk(ctxs, d, w2));
}

proof fn lemma_closed_reaches(ctxs: Seq<ProcessedDocumentContext>, d: bool, visited: Seq<bool>, w: Seq<int>, k: int)
    requires
        is_walk(ctxs, d, w),
        0 <= k < w.len(),
        0 <= w[0] < visited.len(),
        visited[w[0]],
        visited.len() == ctxs.len(),
        forall|v: int, ch: int|
            0 <= v < ctxs.len() && visited[v] && #[trigger] steps(ctxs, d, v, ch) ==> 0 <= ch < ctxs.len()
                && visited[ch],
    ensures
        0 <= w[k] < visited.len() && visited[w[k]],
    decreases k,
{
    if k > 0 {
        lemma_closed_reaches(ctxs, d, visited, w, k - 1);
        let j = k - 1;
        assert(steps(ctxs, d, w[j], w[j + 1]));
    }
}

/// Whether some document of `docs` has the path of context `c`.
pub open spec fn lists_context(docs: Seq<DocumentId>, ctxs: Seq<ProcessedDocumentContext>, c: int) -> bool {
    exists|j: int| 0 <= j < docs.len() && (#[trigger] docs[j])@ == ctxs[c].key.path@
}

/// No two documents of `docs` have the same identifier.
pub open spec fn distinct_documents(docs: Seq<DocumentId>) -> bool {
    forall|a: int, b: int| 0 <= a < b < docs.len() ==> (#[trigger] docs[a])@ != (#[trigger] docs[b])@
}

/// The paths of a list of documents.
pub open spec fn doc_paths(docs: Seq<DocumentId>) -> Seq<Seq<char>> {
    docs.map_values(|x: DocumentId| x@)
}

/// The depth-first walk that lists documents, from a stack of pending contexts (the top last):
/// a context is entered once, its document is listed on its first entry, and its dependencies
/// are then walked in order.
pub open spec fn document_walk(
    ctxs: Seq<ProcessedDocumentContext>,
    d: bool,
    stack: Seq<usize>,
    visited: Seq<bool>,
    docs: Seq<Seq<char>>,
) -> Seq<Seq<char>>
    decreases unvisited(visited, ctxs.len() as int), stack.len(),
{
    if stack.len() == 0 || visited.len() != ctxs.len() {
        docs
    } else {
        let c = stack.last() as int;
        let rest = stack.drop_last();
        if c >= ctxs.len() || visited[c] {
            document_walk(ctxs, d, rest, visited, docs)
        } else {
            let p = ctxs[c].key.path@;
            let listed = if docs.contains(p) {
                docs
            } else {
                docs.push(p)
            };
            proof {
                lemma_unvisited_mark(visited, ctxs.len() as int, c);
            }
            document_walk(ctxs, d, rest + children_of(ctxs[c], d).reverse(), visited.update(c, true), listed)
        }
    }
}

/// The documents reached from context `start`, in the order of the depth-first walk.
pub open spec fn documents_from(ctxs: Seq<ProcessedDocumentContext>, d: bool, start: usize) -> Seq<Seq<char>> {
    document_walk(ctxs, d, seq![start], Seq::new(ctxs.len(), |i: int| false), seq![])
}

/// Adds a document unless one with its identifier is already listed.
fn add_distinct_document(docs: &mut Vec<DocumentId>, id: DocumentId)
    requires
        distinct_documents(old(docs)@),
    ensures
        distinct_documents(final(docs)@),
        exists|j: int| 0 <= j < final(docs)@.len() && (#[trigger] final(docs)@[j])@ == id@,
        final(docs)@.len() >= old(docs)@.len(),
        forall|j: int| 0 <= j < old(docs)@.len() ==> #[trigger] final(docs)@[j] == old(docs)@[j],
        forall|j: int| old(docs)@.len() <= j < final(docs)@.len() ==> (#[trigger] final(docs)@[j]) == id,
        doc_paths(final(docs)@) == (if doc_paths(old(docs)@).contains(id@) {
            doc_paths(old(docs)@)
        } else {
            doc_paths(old(docs)@).push(id@)
        }),
{
    let mut k: usize = 0;
    while k < docs.len()
        invariant
            docs@ == old(docs)@,
            distinct_documents(docs@),
            k <= docs@.len(),
            forall|j: int| 0 <= j < k ==> (#[trigger] docs@[j])@ != id@,
        decreases docs@.len() - k,
    {
        if docs[k].same(&id) {
            assert(docs@[k as int]@ == id@);
            assert(doc_paths(docs@)[k as int] == id@);
            return ;
        }
        k = k + 1;
    }
    let ghost before = docs@;
    assert(!doc_paths(before).contains(id@)) by {
        if doc_paths(before).contains(id@) {
            let j = choose|j: int| 0 <= j < doc_paths(before).len() && doc_paths(before)[j] == id@;
            assert(before[j]@ == id@);
        }
    }
    docs.push(id);
    assert(doc_paths(docs@) =~= doc_paths(before).push(id@));
    assert(docs@[docs@.len() - 1] == id);
    assert forall|a: int, b: int| 0 <= a < b < docs@.len() implies (#[trigger] docs@[a])@ != (#[trigger] docs@[b])@ by {
        if b < before.len() {
            assert(docs@[a] == before[a] && docs@[b] == before[b]);
        } else {
            assert(docs@[a] == before[a]);
        }
    }
}

/// The dependencies of one context, as `children_of` lists them.
fn dependencies(contexts: &Vec<ProcessedDocumentContext>, c: usize, definition_only: bool) -> (r: Vec<usize>)
    requires
        c < contexts@.len(),
        contexts_well_formed(contexts@),
    ensures
        r@ == children_of(contexts@[c as int], definition_only),
        forall|k: int| 0 <= k < r@.len() ==> (#[trigger] r@[k]) < contexts@.len(),
{
    let r = if definition_only {
        let mut v: Vec<usize> = Vec::new();
        let mut t: usize = 0;
        while t < contexts[c].included_contexts.len()
            invariant
                c < contexts@.len(),
                t <= contexts@[c as int].included_contexts@.len(),
                v@ == contexts@[c as int].included_contexts@.subrange(0, t as int),
            decreases contexts@[c as int].included_contexts@.len() - t,
        {
            v.push(contexts[c].included_contexts[t]);
            t = t + 1;
        }
        assert(v@ =~= contexts@[c as int].included_contexts@);
        v
    } else {
        processed_context_dependency_keys(&contexts[c])
    };
    proof {
        let ctx = contexts@[c as int];
        assert forall|k: int| 0 <= k < r@.len() implies (#[trigger] r@[k]) < contexts@.len() by {
            if definition_only {
                match ctx.workspace_base_context {
                    Some(b) => {
                        assert(children_of(ctx, false)[k + 1] == r@[k]);
                    },
                    None => {
                        assert(children_of(ctx, false)[k] == r@[k]);
                    },
                }
            } else {
                assert(children_of(ctx, false)[k] == r@[k]);
            }
        }
    }
    r
}

/// Pushes `children` so that the first of them is popped first.
fn push_reversed(stack: &mut Vec<usize>, children: &Vec<usize>)
    ensures
        final(stack)@ == old(stack)@ + children@.reverse(),
{
    let ghost start = stack@;
    let mut t: usize = children.len();
    while t > 0
        invariant
            t <= children@.len(),
            stack@ == start + children@.subrange(t as int, children@.len() as int).reverse(),
        decreases t,
    {
        t = t - 1;
        stack.push(children[t]);
        proof {
            assert(children@.subrange(t as int, children@.len() as int).reverse() =~= children@.subrange(
                t + 1,
                children@.len() as int,
            ).reverse().push(children@[t as int]));
        }
    }
    assert(children@.subrange(0, children@.len() as int) =~= children@);
}

/// The invariant of the depth-first walk that collects documents.
pub open spec fn walk_state_ok(
    ctxs: Seq<ProcessedDocumentContext>,
    d: bool,
    start: int,
    visited: Seq<bool>,
    stack: Seq<usize>,
    docs: Seq<DocumentId>,
) -> bool {
    let n = ctxs.len() as int;
    &&& visited.len() == n
    &&& forall|j: int| 0 <= j < stack.len() ==> (#[trigger] stack[j]) < n && reachable(ctxs, d, start, stack[j] as int)
    &&& forall|v: int| 0 <= v < n && #[trigger] visited[v] ==> reachable(ctxs, d, start, v)
    &&& forall|v: int, ch: int|
        0 <= v < n && visited[v] && #[trigger] steps(ctxs, d, v, ch) ==> 0 <= ch < n && (visited[ch] || stack.contains(
            ch as usize,
        ))
    &&& distinct_documents(docs)
    &&& forall|j: int|
        0 <= j < docs.len() ==> exists|c: int| 0 <= c < n && visited[c] && (#[trigger] docs[j])@ == ctxs[c].key.path@
    &&& forall|v: int| 0 <= v < n && #[trigger] visited[v] ==> lists_context(docs, ctxs, v)
}

/// Visiting context `c`, popped from the stack, keeps the walk's invariant.
proof fn lemma_visit(
    ctxs: Seq<ProcessedDocumentContext>,
    d: bool,
    start: int,
    vis0: Seq<bool>,
    pre: Seq<usize>,
    c: int,
    docs0: Seq<DocumentId>,
    docs1: Seq<DocumentId>,
    children: Seq<usize>,
)
    requires
        walk_state_ok(ctxs, d, start, vis0, pre, docs0),
        ctxs.len() <= usize::MAX,
        pre.len() > 0,
        pre.last() == c as usize,
        0 <= c < ctxs.len(),
        !vis0[c],
        distinct_documents(docs1),
        exists|j: int| 0 <= j < docs1.len() && (#[trigger] docs1[j])@ == ctxs[c].key.path@,
        docs1.len() >= docs0.len(),
        forall|j: int| 0 <= j < docs0.len() ==> #[trigger] docs1[j] == docs0[j],
        forall|j: int| docs0.len() <= j < docs1.len() ==> (#[trigger] docs1[j])@ == ctxs[c].key.path@,
        children == children_of(ctxs[c], d),
        forall|k: int| 0 <= k < children.len() ==> (#[trigger] children[k]) < ctxs.len(),
    ensures
        walk_state_ok(ctxs, d, start, vis0.update(c, true), pre.drop_last() + children.reverse(), docs1),
{
    let n = ctxs.len() as int;
    let visited = vis0.update(c, true);
    let stack0 = pre.drop_last();
    let stack = stack0 + children.reverse();
    assert(pre =~= stack0.push(c as usize));
    assert(reachable(ctxs, d, start, c)) by {
        let top = pre.len() - 1;
        assert(pre[top] == c as usize);
        assert(pre[top] < n && reachable(ctxs, d, start, pre[top] as int));
        assert(pre[top] as int == c);
    }
    assert forall|j: int| 0 <= j < stack.len() implies (#[trigger] stack[j]) < n && reachable(
        ctxs,
        d,
        start,
        stack[j] as int,
    ) by {
        if j < stack0.len() {
            assert(stack[j] == pre[j]);
        } else {
            let k2 = children.len() - 1 - (j - stack0.len());
            assert(stack[j] == children[k2]);
            assert(lists_child(children, children[k2] as int));
            lemma_extend_walk(ctxs, d, start, c, children[k2] as int);
        }
    }
    assert forall|v: int, ch: int|
        0 <= v < n && visited[v] && #[trigger] steps(ctxs, d, v, ch) implies 0 <= ch < n && (visited[ch]
            || stack.contains(ch as usize)) by {
        if v == c {
            let k2 = choose|k2: int| 0 <= k2 < children.len() && (#[trigger] children[k2]) as int == ch;
            let j = stack0.len() + (children.len() - 1 - k2);
            assert(stack[j] == children[k2]);
        } else {
            assert(vis0[v]);
            if !visited[ch] {
                assert(ch != c);
                assert(pre.contains(ch as usize));
                let j = choose|j: int| 0 <= j < pre.len() && pre[j] == ch as usize;
                if j < stack0.len() {
                    assert(stack[j] == pre[j]);
                } else {
                    assert(pre[j] == c as usize);
                    assert(false);
                }
            }
        }
    }
    assert forall|j: int| 0 <= j < docs1.len() implies exists|c2: int|
        0 <= c2 < n && visited[c2] && (#[trigger] docs1[j])@ == ctxs[c2].key.path@ by {
        if j < docs0.len() {
            assert(docs1[j] == docs0[j]);
            let c2 = choose|c2: int| 0 <= c2 < n && vis0[c2] && (#[trigger] docs0[j])@ == ctxs[c2].key.path@;
            assert(visited[c2]);
        } else {
            assert(visited[c]);
        }
    }
    assert forall|v: int| 0 <= v < n && #[trigger] visited[v] implies lists_context(docs1, ctxs, v) by {
        if v != c {
            assert(vis0[v]);
            let j = choose|j: int| 0 <= j < docs0.len() && (#[trigger] docs0[j])@ == ctxs[v].key.path@;
            assert(docs1[j] == docs0[j]);
        }
    }
}

/// Skipping context `c`, popped from the stack but already visited, keeps the walk's invariant.
proof fn lemma_skip(
    ctxs: Seq<ProcessedDocumentContext>,
    d: bool,
    start: int,
    vis: Seq<bool>,
    pre: Seq<usize>,
    c: int,
    docs: Seq<DocumentId>,
)
    requires
        walk_state_ok(ctxs, d, start, vis, pre, docs),
        ctxs.len() <= usize::MAX,
        pre.len() > 0,
        pre.last() == c as usize,
        0 <= c < ctxs.len(),
        vis[c],
    ensures
        walk_state_ok(ctxs, d, start, vis, pre.drop_last(), docs),
{
    let stack = pre.drop_last();
    assert(pre =~= stack.push(c as usize));
    assert forall|v: int, ch: int|
        0 <= v < ctxs.len() && vis[v] && #[trigger] steps(ctxs, d, v, ch) implies 0 <= ch < ctxs.len() && (vis[ch]
            || stack.contains(ch as usize)) by {
        if !vis[ch] {
            assert(pre.contains(ch as usize));
            let j = choose|j: int| 0 <= j < pre.len() && pre[j] == ch as usize;
            if j < stack.len() {
                assert(stack[j] == pre[j]);
            } else {
                assert(pre[j] == c as usize);
                assert(ch == c);
                assert(false);
            }
        }
    }
}

/// The distinct documents of the contexts reached from `start`, `start`'s own first, in
/// depth-first order: a context's base before its includes, unless only the definition is
/// collected, which leaves bases out.
pub fn collect_documents_for_context(
    contexts: &Vec<ProcessedDocumentContext>,
    start: usize,
    definition_only: bool,
) -> (r: Vec<DocumentId>)
    requires
        start < contexts@.len(),
        contexts_well_formed(contexts@),
    ensures
        r@.len() > 0,
        r@[0]@ == contexts@[start as int].key.path@,
        doc_paths(r@) == documents_from(contexts@, definition_only, start),
        distinct_documents(r@),
        forall|j: int|
            0 <= j < r@.len() ==> exists|c: int|
                0 <= c < contexts@.len() && reachable(contexts@, definition_only, start as int, c) && (#[trigger] r@[j])@
                    == contexts@[c].key.path@,
        forall|c: int|
            0 <= c < contexts@.len() && #[trigger] reachable(contexts@, definition_only, start as int, c) ==> lists_context(
                r@,
                contexts@,
                c,
            ),
{
    let ghost ctxs = contexts@;
    let ghost d = definition_only;
    let n = contexts.len();
    let mut visited: Vec<bool> = Vec::new();
    let mut i: usize = 0;
    while i < n
        invariant
            i <= n,
            visited@.len() == i,
            forall|j: int| 0 <= j < i ==> !(#[trigger] visited@[j]),
        decreases n - i,
    {
        visited.push(false);
        i = i + 1;
    }
    let mut stack: Vec<usize> = Vec::new();
    stack.push(start);
    let mut docs: Vec<DocumentId> = Vec::new();
    let ghost mut any = false;
    let ghost result = documents_from(ctxs, d, start);
    proof {
        let w = seq![start as int];
        assert(is_walk(ctxs, d, w));
        assert(stack@ =~= seq![start]);
        assert(visited@ =~= Seq::new(ctxs.len(), |k: int| false));
        assert(doc_paths(docs@) =~= seq![]);
    }
    while stack.len() > 0
        invariant
            ctxs == contexts@,
            d == definition_only,
            n == ctxs.len(),
            start < n,
            contexts_well_formed(ctxs),
            walk_state_ok(ctxs, d, start as int, visited@, stack@, docs@),
            !any ==> stack@ == seq![start] && docs@.len() == 0,
            any ==> visited@[start as int] && docs@.len() > 0 && docs@[0]@ == ctxs[start as int].key.path@,
            document_walk(ctxs, d, stack@, visited@, doc_paths(docs@)) == result,
        decreases unvisited(visited@, n as int), stack@.len(),
    {
        let ghost pre = stack@;
        let ghost vis_pre = visited@;
        let ghost paths_pre = doc_paths(docs@);
        let c = stack.pop().unwrap();
        proof {
            assert(pre[pre.len() - 1] == c);
            assert(stack@ =~= pre.drop_last());
        }
        if !visited[c] {
            let ghost vis0 = visited@;
            let ghost docs0 = docs@;
            proof {
                lemma_unvisited_mark(visited@, n as int, c as int);
            }
            visited.set(c, true);
            let id = document_id_from_path(contexts[c].key.path.as_str());
            add_distinct_document(&mut docs, id);
            let children = dependencies(contexts, c, definition_only);
            push_reversed(&mut stack, &children);
            proof {
                assert(document_walk(ctxs, d, pre, vis_pre, paths_pre) == document_walk(
                    ctxs,
                    d,
                    stack@,
                    visited@,
                    doc_paths(docs@),
                ));
                lemma_visit(ctxs, d, start as int, vis0, pre, c as int, docs0, docs@, children@);
                if !any {
                    assert(c == start);
                    assert(docs@[0]@ == id@);
                }
                any = true;
            }
        } else {
            proof {
                lemma_skip(ctxs, d, start as int, visited@, pre, c as int, docs@);
                assert(document_walk(ctxs, d, pre, vis_pre, paths_pre) == document_walk(
                    ctxs,
                    d,
                    stack@,
                    visited@,
                    doc_paths(docs@),
                ));
            }
        }
    }
    proof {
        assert forall|c: int| 0 <= c < n && #[trigger] reachable(ctxs, d, start as int, c) implies lists_context(
            docs@,
            ctxs,
            c,
        ) by {
            let w = choose|w: Seq<int>| #[trigger] is_walk(ctxs, d, w) && w[0] == start as int && w.last() == c;
            lemma_closed_reaches(ctxs, d, visited@, w, w.len() - 1);
        }
    }
    docs
}

/// Whether facts are recorded for the document at a path.
pub open spec fn has_facts(facts: Seq<&WorkspaceSemanticDocumentFacts>, d: Seq<char>) -> bool {
    exists|i: int| 0 <= i < facts.len() && (#[trigger] facts[i]).document_id@ == d
}

/// Whether `i` is the first position of `facts` that records the document `d`.
pub open spec fn is_first_facts(facts: Seq<&WorkspaceSemanticDocumentFacts>, d: Seq<char>, i: int) -> bool {
    &&& 0 <= i < facts.len()
    &&& facts[i].document_id@ == d
    &&& forall|j: int| 0 <= j < i ==> (#[trigger] facts[j]).document_id@ != d
}

/// The first position of `facts` that records the document `d`.
pub open spec fn first_facts_index(facts: Seq<&WorkspaceSemanticDocumentFacts>, d: Seq<char>) -> int {
    choose|i: int| is_first_facts(facts, d, i)
}

proof fn lemma_first_facts_unique(facts: Seq<&WorkspaceSemanticDocumentFacts>, d: Seq<char>, i: int)
    requires
        is_first_facts(facts, d, i),
    ensures
        first_facts_index(facts, d) == i,
{
    let k = first_facts_index(facts, d);
    assert(is_first_facts(facts, d, k));
    if k < i {
        assert(facts[k].document_id@ != d);
    } else if i < k {
        assert(facts[i].document_id@ != d);
    }
}

/// The facts of the document with identifier `d`: the first recorded.
fn facts_for<'a>(facts: &[&'a WorkspaceSemanticDocumentFacts], d: &DocumentId) -> (r: Option<
    &'a WorkspaceSemanticDocumentFacts,
>)
    ensures
        match r {
            Some(f) => is_first_facts(facts@, d@, first_facts_index(facts@, d@)) && f == facts@[first_facts_index(
                facts@,
                d@,
            )],
            None => !has_facts(facts@, d@),
        },
{
    let mut i: usize = 0;
    while i < facts.len()
        invariant
            i <= facts@.len(),
            forall|j: int| 0 <= j < i ==> (#[trigger] facts@[j]).document_id@ != d@,
        decreases facts@.len() - i,
    {
        if facts[i].document_id.same(d) {
            proof {
                assert(is_first_facts(facts@, d@, i as int));
                lemma_first_facts_unique(facts@, d@, i as int);
            }
            return Some(facts[i]);
        }
        i = i + 1;
    }
    None
}

/// Whether `d` is the path of some context.
pub open spec fn is_context_path(ctxs: Seq<ProcessedDocumentContext>, d: Seq<char>) -> bool {
    exists|c: int| 0 <= c < ctxs.len() && ctxs[c].key.path@ == d
}

/// Whether `modes` has an entry for the document `d`.
pub open spec fn records_mode(modes: Seq<(Seq<char>, Option<IdentifierMode>)>, d: Seq<char>) -> bool {
    exists|j: int| 0 <= j < modes.len() && (#[trigger] modes[j]).0 == d
}

/// The mode a document hands down to its includes: its own workspace-level mode, else the one
/// it inherited.
pub open spec fn handed_down_mode(
    facts: Seq<&WorkspaceSemanticDocumentFacts>,
    d: Seq<char>,
    inherited: Option<IdentifierMode>,
) -> Option<IdentifierMode> {
    match last_mode(facts[first_facts_index(facts, d)].identifier_modes@, DirectiveContainer::Workspace) {
        Some(m) => Some(m),
        None => inherited,
    }
}

/// The children of a context pushed onto the walk's stack, last child first, each carrying `m`.
pub open spec fn pushed_children(children: Seq<usize>, m: Option<IdentifierMode>) -> Seq<
    (usize, Option<IdentifierMode>),
> {
    Seq::new(children.len(), |k: int| (children[children.len() - 1 - k], m))
}

/// The depth-first walk that hands workspace modes down, from a stack of pending contexts
/// (the top last), each with the mode it inherits. A context is entered once; its document
/// records the mode of its first entry; a document with facts passes its mode to its base and
/// includes, in order.
pub open spec fn mode_walk(
    ctxs: Seq<ProcessedDocumentContext>,
    facts: Seq<&WorkspaceSemanticDocumentFacts>,
    stack: Seq<(usize, Option<IdentifierMode>)>,
    visited: Seq<bool>,
    modes: Seq<(Seq<char>, Option<IdentifierMode>)>,
) -> Seq<(Seq<char>, Option<IdentifierMode>)>
    decreases unvisited(visited, ctxs.len() as int), stack.len(),
{
    if stack.len() == 0 || visited.len() != ctxs.len() {
        modes
    } else {
        let c = stack.last().0 as int;
        let inherited = stack.last().1;
        let rest = stack.drop_last();
        if c >= ctxs.len() || visited[c] {
            mode_walk(ctxs, facts, rest, visited, modes)
        } else {
            let d = ctxs[c].key.path@;
            let recorded = if records_mode(modes, d) {
                modes
            } else {
                modes.push((d, inherited))
            };
            let next_stack = if has_facts(facts, d) {
                rest + pushed_children(children_of(ctxs[c], false), handed_down_mode(facts, d, inherited))
            } else {
                rest
            };
            proof {
                lemma_unvisited_mark(visited, ctxs.len() as int, c);
            }
            mode_walk(ctxs, facts, next_stack, visited.update(c, true), recorded)
        }
    }
}

/// Each document reached from context `start`, with the workspace-level identifier mode it
/// inherits: the mode handed down along the first path the depth-first walk takes to it.
pub open spec fn inherited_modes(
    ctxs: Seq<ProcessedDocumentContext>,
    facts: Seq<&WorkspaceSemanticDocumentFacts>,
    start: usize,
) -> Seq<(Seq<char>, Option<IdentifierMode>)> {
    mode_walk(ctxs, facts, seq![(start, None)], Seq::new(ctxs.len(), |i: int| false), seq![])
}

/// The entries of a mode table, by document path.
pub open spec fn mode_entries(modes: Seq<(DocumentId, Option<IdentifierMode>)>) -> Seq<
    (Seq<char>, Option<IdentifierMode>),
> {
    modes.map_values(|p: (DocumentId, Option<IdentifierMode>)| (p.0@, p.1))
}

/// The workspace-level identifier mode each document inherits from the contexts that include
/// it, walking from `start` depth-first: the first visit of a document decides.
pub fn inherited_workspace_modes_for_context(
    contexts: &Vec<ProcessedDocumentContext>,
    start: usize,
    facts: &[&WorkspaceSemanticDocumentFacts],
) -> (r: Vec<(DocumentId, Option<IdentifierMode>)>)
    requires
        start < contexts@.len(),
        contexts_well_formed(contexts@),
    ensures
        mode_entries(r@) == inherited_modes(contexts@, facts@, start),
        forall|a: int, b: int| 0 <= a < b < r@.len() ==> (#[trigger] r@[a]).0@ != (#[trigger] r@[b]).0@,
        forall|j: int| 0 <= j < r@.len() ==> is_context_path(contexts@, (#[trigger] r@[j]).0@),
{
    let n = contexts.len();
    let mut visited: Vec<bool> = Vec::new();
    let mut i: usize = 0;
    while i < n
        invariant
            i <= n,
            visited@ =~= Seq::new(i as nat, |k: int| false),
        decreases n - i,
    {
        visited.push(false);
        i = i + 1;
    }
    let mut stack: Vec<(usize, Option<IdentifierMode>)> = Vec::new();
    stack.push((start, None));
    let mut modes: Vec<(DocumentId, Option<IdentifierMode>)> = Vec::new();
    let ghost result = inherited_modes(contexts@, facts@, start);
    proof {
        assert(stack@ =~= seq![(start, None::<IdentifierMode>)]);
        assert(mode_entries(modes@) =~= seq![]);
        assert(visited@ =~= Seq::new(contexts@.len(), |k: int| false));
    }
    while stack.len() > 0
        invariant
            n == contexts@.len(),
            contexts_well_formed(contexts@),
            visited@.len() == n,
            forall|j: int| 0 <= j < stack@.len() ==> (#[trigger] stack@[j]).0 < n,
            forall|a: int, b: int| 0 <= a < b < modes@.len() ==> (#[trigger] modes@[a]).0@ != (#[trigger] modes@[b]).0@,
            forall|j: int| 0 <= j < modes@.len() ==> is_context_path(contexts@, (#[trigger] modes@[j]).0@),
            mode_walk(contexts@, facts@, stack@, visited@, mode_entries(modes@)) == result,
        decreases unvisited(visited@, n as int), stack@.len(),
    {
        let ghost pre = stack@;
        let ghost vis0 = visited@;
        let ghost entries0 = mode_entries(modes@);
        let (c, inherited) = stack.pop().unwrap();
        proof {
            assert(pre.last() == (c, inherited));
            assert(stack@ =~= pre.drop_last());
        }
        if !visited[c] {
            proof {
                lemma_unvisited_mark(visited@, n as int, c as int);
            }
            visited.set(c, true);
            let id = document_id_from_path(contexts[c].key.path.as_str());
            let mut k: usize = 0;
            let mut recorded = false;
            while k < modes.len()
                invariant
                    k <= modes@.len(),
                    !recorded ==> forall|j: int| 0 <= j < k ==> (#[trigger] modes@[j]).0@ != id@,
                    recorded ==> records_mode(mode_entries(modes@), id@),
                decreases modes@.len() - k,
            {
                if modes[k].0.same(&id) {
                    recorded = true;
                    proof {
                        assert(mode_entries(modes@)[k as int].0 == id@);
                    }
                }
                k = k + 1;
            }
            if !recorded {
                let ghost before = modes@;
                proof {
                    assert forall|j: int| 0 <= j < entries0.len() implies (#[trigger] entries0[j]).0 != id@ by {
                        assert(entries0[j].0 == before[j].0@);
                    }
                }
                let mode = match &inherited {
                    Some(m) => Some(m.clone()),
                    None => None,
                };
                modes.push((id.clone(), mode));
                proof {
                    assert(mode_entries(modes@) =~= entries0.push((id@, inherited)));
                    assert forall|a: int, b: int| 0 <= a < b < modes@.len() implies (#[trigger] modes@[a]).0@ != (
                    #[trigger] modes@[b]).0@ by {
                        if b < before.len() {
                            assert(modes@[a] == before[a] && modes@[b] == before[b]);
                        } else {
                            assert(modes@[a] == before[a]);
                        }
                    }
                    assert forall|j: int| 0 <= j < modes@.len() implies is_context_path(
                        contexts@,
                        (#[trigger] modes@[j]).0@,
                    ) by {
                        if j < before.len() {
                            assert(modes@[j] == before[j]);
                        } else {
                            assert(modes@[j].0@ == contexts@[c as int].key.path@);
                        }
                    }
                }
            }
            let ghost entries1 = mode_entries(modes@);
            proof {
                assert(entries1 == (if records_mode(entries0, id@) {
                    entries0
                } else {
                    entries0.push((id@, inherited))
                }));
            }
            match facts_for(facts, &id) {
                None => {
                    proof {
                        assert(mode_walk(contexts@, facts@, pre, vis0, entries0) == mode_walk(
                            contexts@,
                            facts@,
                            stack@,
                            visited@,
                            entries1,
                        ));
                    }
                },
                Some(document) => {
                    let own = document_workspace_identifier_mode(document.identifier_modes.as_slice());
                    let next = match own {
                        Some(m) => Some(m),
                        None => inherited,
                    };
                    proof {
                        assert(next == handed_down_mode(facts@, id@, inherited));
                    }
                    let children = dependencies(contexts, c, false);
                    let ghost rest = stack@;
                    let mut t: usize = children.len();
                    while t > 0
                        invariant
                            n == contexts@.len(),
                            t <= children@.len(),
                            forall|k2: int| 0 <= k2 < children@.len() ==> (#[trigger] children@[k2]) < n,
                            forall|j: int| 0 <= j < rest.len() ==> (#[trigger] rest[j]).0 < n,
                            stack@ == rest + pushed_children(children@, next).subrange(
                                0,
                                children@.len() - t,
                            ),
                        decreases t,
                    {
                        t = t - 1;
                        let mode = match &next {
                            Some(m) => Some(m.clone()),
                            None => None,
                        };
                        stack.push((children[t], mode));
                        proof {
                            assert(stack@ =~= rest + pushed_children(children@, next).subrange(
                                0,
                                children@.len() - t,
                            ));
                        }
                    }
                    proof {
                        assert(pushed_children(children@, next).subrange(0, children@.len() as int)
                            =~= pushed_children(children@, next));
                        assert forall|j: int| 0 <= j < stack@.len() implies (#[trigger] stack@[j]).0 < n by {
                            if j >= rest.len() {
                                assert(stack@[j] == pushed_children(children@, next)[j - rest.len()]);
                            } else {
                                assert(stack@[j] == rest[j]);
                            }
                        }
                        assert(mode_walk(contexts@, facts@, pre, vis0, entries0) == mode_walk(
                            contexts@,
                            facts@,
                            stack@,
                            visited@,
                            entries1,
                        ));
                    }
                },
            }
        } else {
            proof {
                assert(mode_walk(contexts@, facts@, pre, vis0, entries0) == mode_walk(
                    contexts@,
                    facts@,
                    stack@,
                    visited@,
                    entries0,
                ));
            }
        }
    }
    modes
}

/// The documents of the instance rooted at context `start`, by their facts: every document
/// reached through bases and includes, then the narrower definition without bases, and the
/// modes they inherit; all of them must have recorded facts.
pub open spec fn facts_cover(facts: Seq<&WorkspaceSemanticDocumentFacts>, docs: Seq<DocumentId>) -> bool {
    forall|j: int| 0 <= j < docs.len() ==> has_facts(facts, (#[trigger] docs[j])@)
}

fn facts_of_documents<'a>(facts: &[&'a WorkspaceSemanticDocumentFacts], docs: &Vec<DocumentId>) -> (r: Vec<
    &'a WorkspaceSemanticDocumentFacts,
>)
    requires
        facts_cover(facts@, docs@),
        documents_well_formed(facts@),
    ensures
        r@.len() == docs@.len(),
        forall|j: int| 0 <= j < r@.len() ==> (#[trigger] r@[j]).document_id@ == docs@[j]@,
        forall|j: int| 0 <= j < r@.len() ==> #[trigger] r@[j] == facts@[first_facts_index(facts@, docs@[j]@)],
        documents_well_formed(r@),
{
    let mut r: Vec<&WorkspaceSemanticDocumentFacts> = Vec::new();
    let mut j: usize = 0;
    while j < docs.len()
        invariant
            j <= docs@.len(),
            facts_cover(facts@, docs@),
            documents_well_formed(facts@),
            r@.len() == j,
            forall|k: int| 0 <= k < j ==> (#[trigger] r@[k]).document_id@ == docs@[k]@,
            forall|k: int| 0 <= k < j ==> #[trigger] r@[k] == facts@[first_facts_index(facts@, docs@[k]@)],
            documents_well_formed(r@),
        decreases docs@.len() - j,
    {
        proof {
            assert(has_facts(facts@, docs@[j as int]@));
        }
        match facts_for(facts, &docs[j]) {
            Some(f) => {
                proof {
                    assert(facts_well_formed(facts@[first_facts_index(facts@, docs@[j as int]@)]));
                }
                let ghost before = r@;
                r.push(f);
                proof {
                    assert forall|a: int| 0 <= a < r@.len() implies facts_well_formed(#[trigger] r@[a]) by {
                        if a < before.len() {
                            assert(r@[a] == before[a]);
                        }
                    }
                }
            },
            None => {
                proof {
                    assert(false);
                }
            },
        }
        j = j + 1;
    }
    r
}

/// The paths of the documents some facts describe.
pub open spec fn facts_paths(ds: Seq<&WorkspaceSemanticDocumentFacts>) -> Seq<Seq<char>> {
    ds.map_values(|f: &WorkspaceSemanticDocumentFacts| f.document_id@)
}

/// Every context's document has recorded facts.
pub open spec fn contexts_have_facts(ctxs: Seq<ProcessedDocumentContext>, facts: Seq<&WorkspaceSemanticDocumentFacts>) -> bool {
    forall|c: int| 0 <= c < ctxs.len() ==> has_facts(facts, (#[trigger] ctxs[c]).key.path@)
}

/// What the index of the instance rooted at context `start` holds: its root, its documents
/// (each reached once, in walk order), and its derived tables, built from the first recorded
/// facts of each document and the modes they inherit.
pub open spec fn workspace_index_ok(
    r: WorkspaceIndex,
    contexts: Seq<ProcessedDocumentContext>,
    start: usize,
    facts: Seq<&WorkspaceSemanticDocumentFacts>,
    statuses: Seq<(String, PathStatus)>,
) -> bool {
    &&& r.derived.root_document@ == contexts[start as int].key.path@
    &&& distinct_documents(r.derived.documents@)
    &&& forall|j: int|
        0 <= j < r.derived.documents@.len() ==> exists|c: int|
            0 <= c < contexts.len() && reachable(contexts, false, start as int, c)
                && (#[trigger] r.derived.documents@[j])@ == contexts[c].key.path@
    &&& forall|c: int|
        0 <= c < contexts.len() && #[trigger] reachable(contexts, false, start as int, c) ==> lists_context(
            r.derived.documents@,
            contexts,
            c,
        )
    &&& exists|root: DocumentId, ds: Seq<&WorkspaceSemanticDocumentFacts>, defs: Seq<&WorkspaceSemanticDocumentFacts>, modes: Seq<(DocumentId, Option<IdentifierMode>)>|
        #[trigger] derived_instance_ok(&r.derived, root, ds, defs, modes, statuses)
            && facts_paths(ds) == documents_from(contexts, false, start)
            && facts_paths(defs) == documents_from(contexts, true, start)
            && mode_entries(modes) == inherited_modes(contexts, facts, start)
            && (forall|j: int| 0 <= j < ds.len() ==> #[trigger] ds[j] == facts[first_facts_index(facts, ds[j].document_id@)])
            && (forall|j: int| 0 <= j < defs.len() ==> #[trigger] defs[j] == facts[first_facts_index(facts, defs[j].document_id@)])
}

/// Builds the index of the workspace instance rooted at context `start`.
#[verifier::rlimit(90)]
pub fn build_workspace_index(
    instance_id: WorkspaceInstanceId,
    contexts: &Vec<ProcessedDocumentContext>,
    start: usize,
    facts: &[&WorkspaceSemanticDocumentFacts],
    statuses: &Vec<(String, PathStatus)>,
) -> (r: WorkspaceIndex)
    requires
        start < contexts@.len(),
        contexts_well_formed(contexts@),
        contexts_have_facts(contexts@, facts@),
        documents_well_formed(facts@),
    ensures
        r.id == instance_id,
        workspace_index_ok(r, contexts@, start, facts@, statuses@),
{
    let instance_documents = collect_documents_for_context(contexts, start, false);
    let definition_documents = collect_documents_for_context(contexts, start, true);
    proof {
        assert forall|j: int| 0 <= j < instance_documents@.len() implies has_facts(facts@, (#[trigger] instance_documents@[j])@) by {
            let c = choose|c: int|
                0 <= c < contexts@.len() && reachable(contexts@, false, start as int, c) && instance_documents@[j]@
                    == contexts@[c].key.path@;
            assert(has_facts(facts@, contexts@[c].key.path@));
        }
        assert forall|j: int| 0 <= j < definition_documents@.len() implies has_facts(facts@, (#[trigger] definition_documents@[j])@) by {
            let c = choose|c: int|
                0 <= c < contexts@.len() && reachable(contexts@, true, start as int, c) && definition_documents@[j]@
                    == contexts@[c].key.path@;
            assert(has_facts(facts@, contexts@[c].key.path@));
        }
    }
    let modes = inherited_workspace_modes_for_context(contexts, start, facts);
    let instance_facts = facts_of_documents(facts, &instance_documents);
    let definition_facts = facts_of_documents(facts, &definition_documents);
    let root = instance_facts[0];
    let derived = build_derived_workspace_instance(
        root,
        instance_facts.as_slice(),
        definition_facts.as_slice(),
        modes.as_slice(),
        statuses,
    );
    proof {
        assert forall|j: int| 0 <= j < instance_documents@.len() implies #[trigger] derived.documents@[j]@
            == instance_documents@[j]@ by {
            assert(derived.documents@[j] == instance_facts@[j].document_id);
        }
        assert(derived_instance_ok(
            &derived,
            root.document_id,
            instance_facts@,
            definition_facts@,
            modes@,
            statuses@,
        ));
    }
    let r = WorkspaceIndex::from_derived(instance_id, derived);
    proof {
        assert(derived_instance_ok(
            &r.derived,
            root.document_id,
            instance_facts@,
            definition_facts@,
            modes@,
            statuses@,
        ));
        assert(facts_paths(instance_facts@) =~= doc_paths(instance_documents@));
        assert(facts_paths(definition_facts@) =~= doc_paths(definition_documents@));
        assert forall|j: int| 0 <= j < instance_facts@.len() implies #[trigger] instance_facts@[j] == facts@[first_facts_index(
            facts@,
            instance_facts@[j].document_id@,
        )] by {
            assert(instance_facts@[j].document_id@ == instance_documents@[j]@);
        }
        assert forall|j: int| 0 <= j < definition_facts@.len() implies #[trigger] definition_facts@[j] == facts@[first_facts_index(
            facts@,
            definition_facts@[j].document_id@,
        )] by {
            assert(definition_facts@[j].document_id@ == definition_documents@[j]@);
        }
        assert forall|a: int, b: int| 0 <= a < b < r.derived.documents@.len() implies (
        #[trigger] r.derived.documents@[a])@ != (#[trigger] r.derived.documents@[b])@ by {
            assert(r.derived.documents@[a]@ == instance_documents@[a]@);
            assert(r.derived.documents@[b]@ == instance_documents@[b]@);
        }
        assert forall|j: int| 0 <= j < r.derived.documents@.len() implies exists|c: int|
            0 <= c < contexts@.len() && reachable(contexts@, false, start as int, c)
                && (#[trigger] r.derived.documents@[j])@ == contexts@[c].key.path@ by {
            assert(r.derived.documents@[j]@ == instance_documents@[j]@);
        }
        assert forall|c: int|
            0 <= c < contexts@.len() && #[trigger] reachable(contexts@, false, start as int, c) implies lists_context(
            r.derived.documents@,
            contexts@,
            c,
        ) by {
            let j = choose|j: int| 0 <= j < instance_documents@.len() && (#[trigger] instance_documents@[j])@
                == contexts@[c].key.path@;
            assert(r.derived.documents@[j]@ == instance_documents@[j]@);
        }
    }
    r
}

} // verus!
