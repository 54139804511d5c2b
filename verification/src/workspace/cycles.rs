//! Finding the `!include` directives that take part in an include cycle.
//!
//! The includes form a graph over documents: each include links its including document to
//! every document it discovered. A depth-first walk over that graph, in document order and
//! then in include order, reports the links it closes into a cycle.

use vstd::prelude::*;

use crate::rule::seq_lt;
use crate::snapshot::DocumentId;
use crate::workspace::model::ResolvedInclude;

verus! {

/// Whether `l` names a link: include `l.0` reached its `l.1`-th discovered document.
pub open spec fn valid_link(incs: Seq<ResolvedInclude>, l: (int, int)) -> bool {
    0 <= l.0 < incs.len() && 0 <= l.1 < incs[l.0].discovered_documents@.len()
}

/// The document a link leaves.
pub open spec fn link_from(incs: Seq<ResolvedInclude>, l: (int, int)) -> Seq<char> {
    incs[l.0].including_document@
}

/// The document a link reaches.
pub open spec fn link_to(incs: Seq<ResolvedInclude>, l: (int, int)) -> Seq<char> {
    incs[l.0].discovered_documents@[l.1]@
}

/// Whether link `b` leaves the document that link `a` reaches.
pub open spec fn joins(incs: Seq<ResolvedInclude>, a: (int, int), b: (int, int)) -> bool {
    link_to(incs, a) == link_from(incs, b)
}

/// `w` is a closed walk of links that starts with a link of include `i`.
pub open spec fn include_cycle_walk(incs: Seq<ResolvedInclude>, i: int, w: Seq<(int, int)>) -> bool {
    &&& w.len() >= 1
    &&& w[0].0 == i
    &&& forall|j: int| 0 <= j < w.len() ==> valid_link(incs, #[trigger] w[j])
    &&& forall|j: int| 0 <= j < w.len() - 1 ==> #[trigger] joins(incs, w[j], w[j + 1])
    &&& joins(incs, w.last(), w[0])
}

/// Include `i` lies on an include cycle: following includes from one of its targets leads
/// back to its including document.
pub open spec fn include_on_cycle(incs: Seq<ResolvedInclude>, i: int) -> bool {
    exists|w: Seq<(int, int)>| include_cycle_walk(incs, i, w)
}

/// Include `i` discovered the very document that declares it.
pub open spec fn includes_itself(incs: Seq<ResolvedInclude>, i: int) -> bool {
    exists|k: int|
        0 <= k < incs[i].discovered_documents@.len() && (#[trigger] incs[i].discovered_documents@[k])@
            == incs[i].including_document@
}

/// A link between numbered documents: the `slot`-th document discovered by include
/// `directive`, from document `from` to document `to`.
#[derive(Clone, Copy)]
pub struct IncludeEdge {
    /// The include's position.
    pub directive: usize,
    /// The position of the discovered document within the include's.
    pub slot: usize,
    /// The number of the including document.
    pub from: usize,
    /// The number of the discovered document.
    pub to: usize,
}

/// The position of the first `c` in `s`, or `s.len()` when there is none.
pub open spec fn first_position(s: Seq<usize>, c: usize) -> int
    decreases s.len(),
{
    if s.len() == 0 {
        0
    } else if s[0] == c {
        0
    } else {
        1 + first_position(s.drop_first(), c)
    }
}

/// `marked` with the include of each stack edge from position `k` on marked.
pub open spec fn mark_from(es: Seq<IncludeEdge>, se: Seq<usize>, k: int, marked: Seq<bool>) -> Seq<bool>
    decreases se.len() - k,
{
    if k < 0 || k >= se.len() {
        marked
    } else {
        mark_from(es, se, k + 1, marked.update(es[se[k] as int].directive as int, true))
    }
}

/// The depth-first visit of document `u`, reached along the stack of documents `sn` and stack
/// of edges `se`, with at most `fuel` nested visits: `u` joins the stack, its edges are
/// followed in order, and it is finished. Returns the finished documents and marked includes.
pub open spec fn dfs_visit(
    es: Seq<IncludeEdge>,
    fuel: nat,
    u: usize,
    sn: Seq<usize>,
    se: Seq<usize>,
    vis: Seq<bool>,
    marked: Seq<bool>,
) -> (Seq<bool>, Seq<bool>)
    decreases fuel, es.len() + 1,
{
    let r = dfs_edges(es, fuel, u, sn.push(u), se, vis, marked, 0);
    (r.0.update(u as int, true), r.1)
}

/// Following the edges of document `u` from edge `x` on: an edge to a document on the stack
/// marks the includes of the stack's edges from that document on and its own include; an edge
/// to a document neither on the stack nor finished visits that document; any other edge is
/// passed over.
pub open spec fn dfs_edges(
    es: Seq<IncludeEdge>,
    fuel: nat,
    u: usize,
    sn: Seq<usize>,
    se: Seq<usize>,
    vis: Seq<bool>,
    marked: Seq<bool>,
    x: int,
) -> (Seq<bool>, Seq<bool>)
    decreases fuel, es.len() - x,
{
    if x < 0 || x >= es.len() {
        (vis, marked)
    } else {
        let e = es[x];
        if e.from != u {
            dfs_edges(es, fuel, u, sn, se, vis, marked, x + 1)
        } else if sn.contains(e.to) {
            let m = mark_from(es, se, first_position(sn, e.to), marked).update(e.directive as int, true);
            dfs_edges(es, fuel, u, sn, se, vis, m, x + 1)
        } else if vis[e.to as int] || fuel == 0 {
            dfs_edges(es, fuel, u, sn, se, vis, marked, x + 1)
        } else {
            let r = dfs_visit(es, (fuel - 1) as nat, e.to, sn, se.push(x as usize), vis, marked);
            dfs_edges(es, fuel, u, sn, se, r.0, r.1, x + 1)
        }
    }
}

/// Visiting, in number order from `root` on, each of the first `n` documents not yet
/// finished.
pub open spec fn dfs_roots(
    es: Seq<IncludeEdge>,
    n: int,
    fuel: nat,
    root: int,
    vis: Seq<bool>,
    marked: Seq<bool>,
) -> (Seq<bool>, Seq<bool>)
    decreases n - root,
{
    if root < 0 || root >= n {
        (vis, marked)
    } else if vis[root] {
        dfs_roots(es, n, fuel, root + 1, vis, marked)
    } else {
        let r = dfs_visit(es, fuel, root as usize, Seq::empty(), Seq::empty(), vis, marked);
        dfs_roots(es, n, fuel, root + 1, r.0, r.1)
    }
}

/// The positions of the first `k` marked includes, in order.
pub open spec fn marked_positions(m: Seq<bool>, k: int) -> Seq<usize>
    decreases k,
{
    if k <= 0 {
        Seq::empty()
    } else if m[k - 1] {
        marked_positions(m, k - 1).push((k - 1) as usize)
    } else {
        marked_positions(m, k - 1)
    }
}

proof fn lemma_first_position(s: Seq<usize>, c: usize, p: int)
    requires
        0 <= p < s.len(),
        s[p] == c,
        forall|j: int| 0 <= j < p ==> s[j] != c,
    ensures
        first_position(s, c) == p,
    decreases p,
{
    if p > 0 {
        lemma_first_position(s.drop_first(), c, p - 1);
    }
}

proof fn lemma_fresh_bound(v: Seq<bool>, st: Seq<bool>, n: int)
    requires
        0 <= n,
    ensures
        fresh_count(v, st, n) <= n,
    decreases n,
{
    if n > 0 {
        lemma_fresh_bound(v, st, n - 1);
    }
}

spec fn id_joins(es: Seq<IncludeEdge>, a: int, b: int) -> bool {
    es[a].to == es[b].from
}

spec fn closed_walk(es: Seq<IncludeEdge>, w: Seq<int>) -> bool {
    &&& w.len() >= 1
    &&& forall|j: int| 0 <= j < w.len() ==> 0 <= #[trigger] w[j] < es.len()
    &&& forall|j: int| 0 <= j < w.len() - 1 ==> #[trigger] id_joins(es, w[j], w[j + 1])
    &&& id_joins(es, w.last(), w[0])
}

spec fn marked_sound(es: Seq<IncludeEdge>, marked: Seq<bool>) -> bool {
    forall|i: int|
        0 <= i < marked.len() && #[trigger] marked[i] ==> exists|w: Seq<int>|
            closed_walk(es, w) && es[w[0]].directive == i
}

spec fn self_loops_marked(es: Seq<IncludeEdge>, visited: Seq<bool>, marked: Seq<bool>) -> bool {
    forall|e: int|
        0 <= e < es.len() && (#[trigger] es[e]).from == es[e].to && visited[es[e].from as int]
            ==> marked[es[e].directive as int]
}

/// An edge whose include is not marked leads from a finished node only to a finished node.
spec fn unmarked_closed(es: Seq<IncludeEdge>, visited: Seq<bool>, marked: Seq<bool>) -> bool {
    forall|e: int|
        0 <= e < es.len() && visited[(#[trigger] es[e]).from as int] && !marked[es[e].directive as int]
            ==> visited[es[e].to as int]
}

/// A closed walk that leaves finished nodes only.
spec fn finished_walk(es: Seq<IncludeEdge>, visited: Seq<bool>, w: Seq<int>) -> bool {
    &&& closed_walk(es, w)
    &&& forall|j: int| 0 <= j < w.len() ==> visited[es[#[trigger] w[j]].from as int]
}

/// Every closed walk through finished nodes has an edge whose include is marked.
spec fn finished_cycles_marked(es: Seq<IncludeEdge>, visited: Seq<bool>, marked: Seq<bool>) -> bool {
    forall|w: Seq<int>|
        #[trigger] finished_walk(es, visited, w) ==> exists|j: int| 0 <= j < w.len() && marked[es[#[trigger] w[j]].directive as int]
}

spec fn graph_wf(es: Seq<IncludeEdge>, n: int, m: int) -> bool {
    forall|e: int|
        0 <= e < es.len() ==> (#[trigger] es[e]).from < n && es[e].to < n && es[e].directive < m
}

spec fn fresh_count(vis: Seq<bool>, stk: Seq<bool>, n: int) -> nat
    decreases n,
{
    if n <= 0 {
        0
    } else {
        fresh_count(vis, stk, n - 1) + if !vis[n - 1] && !stk[n - 1] {
            1nat
        } else {
            0nat
        }
    }
}

proof fn lemma_fresh_mono(av: Seq<bool>, ast: Seq<bool>, bv: Seq<bool>, bst: Seq<bool>, n: int)
    requires
        forall|j: int| 0 <= j < n ==> (!av[j] && !ast[j]) ==> (!bv[j] && !bst[j]),
    ensures
        fresh_count(av, ast, n) <= fresh_count(bv, bst, n),
    decreases n,
{
    if n > 0 {
        lemma_fresh_mono(av, ast, bv, bst, n - 1);
    }
}

proof fn lemma_fresh_strict(av: Seq<bool>, ast: Seq<bool>, bv: Seq<bool>, bst: Seq<bool>, n: int, k: int)
    requires
        0 <= k < n,
        forall|j: int| 0 <= j < n ==> (!av[j] && !ast[j]) ==> (!bv[j] && !bst[j]),
        !bv[k] && !bst[k],
        !(!av[k] && !ast[k]),
    ensures
        fresh_count(av, ast, n) < fresh_count(bv, bst, n),
    decreases n,
{
    if k < n - 1 {
        lemma_fresh_strict(av, ast, bv, bst, n - 1, k);
    } else {
        lemma_fresh_mono(av, ast, bv, bst, n - 1);
    }
}

/// Every rotation of a closed walk is a closed walk.
proof fn lemma_rotate(es: Seq<IncludeEdge>, c: Seq<int>, r: int)
    requires
        closed_walk(es, c),
        0 <= r < c.len(),
    ensures
        closed_walk(es, c.subrange(r, c.len() as int) + c.subrange(0, r)),
        (c.subrange(r, c.len() as int) + c.subrange(0, r))[0] == c[r],
{
    let n = c.len() as int;
    let w = c.subrange(r, n) + c.subrange(0, r);
    assert(w.len() == n);
    assert forall|j: int| 0 <= j < n implies w[j] == if j < n - r { c[r + j] } else { c[j - (n - r)] } by {}
    assert forall|j: int| 0 <= j < w.len() implies 0 <= #[trigger] w[j] < es.len() by {
        if j < n - r {
            assert(w[j] == c[r + j]);
        } else {
            assert(w[j] == c[j - (n - r)]);
        }
    }
    assert forall|j: int| 0 <= j < w.len() - 1 implies #[trigger] id_joins(es, w[j], w[j + 1]) by {
        if j + 1 < n - r {
            assert(id_joins(es, c[r + j], c[r + j + 1]));
        } else if j + 1 == n - r {
            assert(w[j] == c[n - 1]);
            assert(w[j + 1] == c[0]);
        } else {
            let a = j - (n - r);
            assert(id_joins(es, c[a], c[a + 1]));
        }
    }
    if r == 0 {
        assert(w.last() == c[n - 1]);
    } else {
        let a = r - 1;
        assert(w.last() == c[a]);
        assert(id_joins(es, c[a], c[a + 1]));
    }
}

/// Marking one more include keeps both invariants of finished nodes.
proof fn lemma_mark_keeps(es: Seq<IncludeEdge>, visited: Seq<bool>, marked: Seq<bool>, d: int)
    requires
        unmarked_closed(es, visited, marked),
        finished_cycles_marked(es, visited, marked),
        0 <= d < marked.len(),
        graph_wf(es, visited.len() as int, marked.len() as int),
    ensures
        unmarked_closed(es, visited, marked.update(d, true)),
        finished_cycles_marked(es, visited, marked.update(d, true)),
{
    let m2 = marked.update(d, true);
    assert forall|e: int|
        0 <= e < es.len() && visited[(#[trigger] es[e]).from as int] && !m2[es[e].directive as int] implies visited[es[e].to as int] by {
        assert(!marked[es[e].directive as int]);
    }
    assert forall|w: Seq<int>| #[trigger] finished_walk(es, visited, w) implies exists|j: int|
        0 <= j < w.len() && m2[es[#[trigger] w[j]].directive as int] by {
        let j = choose|j: int| 0 <= j < w.len() && marked[es[#[trigger] w[j]].directive as int];
        assert(0 <= w[j] < es.len());
        assert(m2[es[w[j]].directive as int]);
    }
}

/// Finishing node `u`, each of whose edges is marked or leads to a finished node, keeps both
/// invariants of finished nodes.
proof fn lemma_finish(es: Seq<IncludeEdge>, visited: Seq<bool>, marked: Seq<bool>, u: int)
    requires
        unmarked_closed(es, visited, marked),
        finished_cycles_marked(es, visited, marked),
        0 <= u < visited.len(),
        !visited[u],
        graph_wf(es, visited.len() as int, marked.len() as int),
        forall|e: int| 0 <= e < es.len() && (#[trigger] es[e]).from == u ==> marked[es[e].directive as int] || visited[es[e].to as int]
            || es[e].to == u,
        forall|e: int| 0 <= e < es.len() && (#[trigger] es[e]).from == u && es[e].to == u ==> marked[es[e].directive as int],
    ensures
        unmarked_closed(es, visited.update(u, true), marked),
        finished_cycles_marked(es, visited.update(u, true), marked),
{
    let v2 = visited.update(u, true);
    assert forall|e: int|
        0 <= e < es.len() && v2[(#[trigger] es[e]).from as int] && !marked[es[e].directive as int] implies v2[es[e].to as int] by {
        if es[e].from != u {
            assert(visited[es[e].from as int]);
        }
    }
    assert forall|w: Seq<int>| #[trigger] finished_walk(es, v2, w) implies exists|j: int|
        0 <= j < w.len() && marked[es[#[trigger] w[j]].directive as int] by {
        if forall|j: int| 0 <= j < w.len() ==> es[#[trigger] w[j]].from != u {
            assert forall|j: int| 0 <= j < w.len() implies visited[es[#[trigger] w[j]].from as int] by {
                assert(v2[es[w[j]].from as int]);
            }
            assert(finished_walk(es, visited, w));
        } else {
            let j = choose|j: int| 0 <= j < w.len() && es[#[trigger] w[j]].from == u;
            let pj = if j == 0 {
                w.len() - 1
            } else {
                j - 1
            };
            if j == 0 {
                assert(id_joins(es, w.last(), w[0]));
            } else {
                assert(id_joins(es, w[pj], w[pj + 1]));
            }
            assert(es[w[pj]].to == u);
            let a = es[w[pj]].from as int;
            assert(v2[es[w[pj]].from as int]);
            if !marked[es[w[pj]].directive as int] {
                if a != u {
                    assert(visited[a]);
                    assert(visited[es[w[pj]].to as int]);
                }
            }
            assert(marked[es[w[pj]].directive as int]);
        }
    }
}

/// The stack's edges from position `s` on, then the edge `cur` that leads back to position `s`.
spec fn stack_cycle(se: Seq<usize>, s: int, cur: int) -> Seq<int> {
    se.subrange(s, se.len() as int).map_values(|y: usize| y as int).push(cur)
}

/// The walk closed by an edge back into the current stack.
proof fn lemma_stack_cycle(
    es: Seq<IncludeEdge>,
    sn: Seq<usize>,
    se: Seq<usize>,
    u: usize,
    cur: int,
    s: int,
)
    requires
        sn.len() == se.len() + 1,
        sn.last() == u,
        forall|j: int|
            0 <= j < se.len() ==> (#[trigger] se[j]) < es.len() && es[se[j] as int].from == sn[j]
                && es[se[j] as int].to == sn[j + 1],
        0 <= cur < es.len(),
        es[cur].from == u,
        0 <= s < sn.len(),
        sn[s] == es[cur].to,
    ensures
        closed_walk(es, stack_cycle(se, s, cur)),
        stack_cycle(se, s, cur).len() == se.len() - s + 1,
        forall|j: int| 0 <= j < se.len() - s ==> stack_cycle(se, s, cur)[j] == se[s + j] as int,
        stack_cycle(se, s, cur).last() == cur,
{
    let t = se.len() as int;
    let c = stack_cycle(se, s, cur);
    assert(c.len() == t - s + 1);
    assert forall|j: int| 0 <= j < c.len() implies 0 <= #[trigger] c[j] < es.len() by {
        if j < t - s {
            assert(c[j] == se[s + j] as int);
        }
    }
    assert forall|j: int| 0 <= j < c.len() - 1 implies #[trigger] id_joins(es, c[j], c[j + 1]) by {
        assert(c[j] == se[s + j] as int);
        if j + 1 < t - s {
            assert(c[j + 1] == se[s + j + 1] as int);
        } else {
            assert(c[j + 1] == cur);
        }
    }
    if s < t {
        assert(c[0] == se[s] as int);
    }
}

/// Depth-first walk from `u`, marking the includes whose links close a cycle.
#[verifier::rlimit(40)]
fn walk(
    u: usize,
    es: &Vec<IncludeEdge>,
    visited: &mut Vec<bool>,
    on_stack: &mut Vec<bool>,
    stack_nodes: &mut Vec<usize>,
    stack_edges: &mut Vec<usize>,
    marked: &mut Vec<bool>,
    Ghost(fuel): Ghost<nat>,
)
    requires
        fuel >= fresh_count(old(visited)@, old(on_stack)@, old(visited)@.len() as int),
        u < old(visited)@.len(),
        old(on_stack)@.len() == old(visited)@.len(),
        graph_wf(es@, old(visited)@.len() as int, old(marked)@.len() as int),
        !old(visited)@[u as int],
        !old(on_stack)@[u as int],
        old(stack_nodes)@.len() == old(stack_edges)@.len(),
        forall|j: int| 0 <= j < old(stack_nodes)@.len() ==> (#[trigger] old(stack_nodes)@[j]) < old(visited)@.len(),
        forall|v: int|
            #![trigger old(on_stack)@[v]]
            #![trigger old(stack_nodes)@.contains(v as usize)]
            0 <= v < old(visited)@.len() ==> (old(on_stack)@[v] <==> old(stack_nodes)@.contains(v as usize)),
        forall|j: int|
            0 <= j < old(stack_edges)@.len() ==> (#[trigger] old(stack_edges)@[j]) < es@.len()
                && es@[old(stack_edges)@[j] as int].from == old(stack_nodes)@[j]
                && es@[old(stack_edges)@[j] as int].to == (if j + 1 < old(stack_nodes)@.len() {
                    old(stack_nodes)@[j + 1]
                } else {
                    u
                }),
        marked_sound(es@, old(marked)@),
        self_loops_marked(es@, old(visited)@, old(marked)@),
        unmarked_closed(es@, old(visited)@, old(marked)@),
        finished_cycles_marked(es@, old(visited)@, old(marked)@),
    ensures
        final(visited)@.len() == old(visited)@.len(),
        final(on_stack)@ == old(on_stack)@,
        final(stack_nodes)@ == old(stack_nodes)@,
        final(stack_edges)@ == old(stack_edges)@,
        final(marked)@.len() == old(marked)@.len(),
        forall|v: int| 0 <= v < old(visited)@.len() && old(visited)@[v] ==> final(visited)@[v],
        final(visited)@[u as int],
        forall|v: int|
            0 <= v < old(visited)@.len() && #[trigger] final(visited)@[v] ==> old(visited)@[v] || !old(on_stack)@[v],
        forall|i: int| 0 <= i < old(marked)@.len() && old(marked)@[i] ==> final(marked)@[i],
        marked_sound(es@, final(marked)@),
        self_loops_marked(es@, final(visited)@, final(marked)@),
        unmarked_closed(es@, final(visited)@, final(marked)@),
        finished_cycles_marked(es@, final(visited)@, final(marked)@),
        (final(visited)@, final(marked)@) == dfs_visit(
            es@,
            fuel,
            u,
            old(stack_nodes)@,
            old(stack_edges)@,
            old(visited)@,
            old(marked)@,
        ),
    decreases fresh_count(old(visited)@, old(on_stack)@, old(visited)@.len() as int),
{
    let total = visited.len();
    let ghost n = total as int;
    let ghost vis0 = visited@;
    let ghost stk0 = on_stack@;
    let ghost sn0 = stack_nodes@;
    let ghost se0 = stack_edges@;
    let ghost m0 = marked@;
    on_stack.set(u, true);
    stack_nodes.push(u);
    let mut x: usize = 0;
    while x < es.len()
        invariant
            n == visited@.len(),
            n == old(visited)@.len(),
            n == total,
            stk0.len() == n,
            vis0.len() == n,
            on_stack@ == stk0.update(u as int, true),
            stack_nodes@ == sn0.push(u),
            stack_edges@ == se0,
            marked@.len() == m0.len(),
            graph_wf(es@, n, m0.len() as int),
            u < n,
            !vis0[u as int],
            !stk0[u as int],
            !visited@[u as int],
            forall|j: int| 0 <= j < sn0.len() ==> (#[trigger] sn0[j]) < n,
            forall|v: int|
                #![trigger stk0[v]]
                #![trigger sn0.contains(v as usize)]
                0 <= v < n ==> (stk0[v] <==> sn0.contains(v as usize)),
            forall|v: int| 0 <= v < n && #[trigger] visited@[v] ==> vis0[v] || (!stk0[v] && v != u),
            forall|j: int|
                0 <= j < se0.len() ==> (#[trigger] se0[j]) < es@.len() && es@[se0[j] as int].from == sn0[j]
                    && es@[se0[j] as int].to == (if j + 1 < sn0.len() {
                        sn0[j + 1]
                    } else {
                        u
                    }),
            sn0.len() == se0.len(),
            forall|v: int| 0 <= v < n && vis0[v] ==> visited@[v],
            forall|i: int| 0 <= i < m0.len() && m0[i] ==> marked@[i],
            marked_sound(es@, marked@),
            self_loops_marked(es@, visited@, marked@),
            forall|e: int|
                0 <= e < x && (#[trigger] es@[e]).from == u && es@[e].to == u ==> marked@[es@[e].directive as int],
            x <= es@.len(),
            fresh_count(vis0, stk0, n) == fresh_count(old(visited)@, old(on_stack)@, n),
            unmarked_closed(es@, visited@, marked@),
            finished_cycles_marked(es@, visited@, marked@),
            forall|e: int|
                0 <= e < x && (#[trigger] es@[e]).from == u ==> marked@[es@[e].directive as int] || visited@[es@[e].to as int],
            fuel >= fresh_count(vis0, stk0, n),
            dfs_edges(es@, fuel, u, sn0.push(u), se0, visited@, marked@, x as int) == dfs_edges(
                es@,
                fuel,
                u,
                sn0.push(u),
                se0,
                vis0,
                m0,
                0,
            ),
        decreases es@.len() - x,
    {
        let edge = es[x];
        let ghost vis_x = visited@;
        let ghost m_x = marked@;
        proof {
            assert forall|v: int| 0 <= v < n implies (on_stack@[v] <==> sn0.push(u).contains(v as usize)) by {
                if v == u as int {
                    assert(sn0.push(u)[sn0.len() as int] == u);
                } else {
                    assert(on_stack@[v] == stk0[v]);
                    if sn0.contains(v as usize) {
                        let j = choose|j: int| 0 <= j < sn0.len() && sn0[j] == v as usize;
                        assert(sn0.push(u)[j] == v as usize);
                    }
                    if sn0.push(u).contains(v as usize) {
                        let j = choose|j: int| 0 <= j < sn0.push(u).len() && sn0.push(u)[j] == v as usize;
                        if j < sn0.len() {
                            assert(sn0[j] == v as usize);
                        }
                    }
                }
            }
        }
        proof {
            assert(es@[x as int].to < n);
        }
        if edge.from == u {
            let c = edge.to;
            if on_stack[c] {
                let ghost sn = stack_nodes@;
                let ghost se = stack_edges@;
                proof {
                    if c == u {
                        assert(sn[sn.len() - 1] == c);
                    } else {
                        assert(stk0[c as int]);
                        let j = choose|j: int| 0 <= j < sn0.len() && sn0[j] == c;
                        assert(sn[j] == c);
                    }
                }
                let mut s: usize = 0;
                while s < stack_nodes.len() && stack_nodes[s] != c
                    invariant
                        sn == stack_nodes@,
                        s <= sn.len(),
                        forall|j: int| 0 <= j < s ==> sn[j] != c,
                    decreases sn.len() - s,
                {
                    s = s + 1;
                }
                proof {
                    let j = choose|j: int| 0 <= j < sn.len() && sn[j] == c;
                    assert(j >= s);
                }
                proof {
                    assert forall|j: int|
                        0 <= j < se.len() implies (#[trigger] se[j]) < es@.len() && es@[se[j] as int].from == sn[j]
                            && es@[se[j] as int].to == sn[j + 1] by {
                        if j + 1 < sn0.len() {
                            assert(sn[j + 1] == sn0[j + 1]);
                        } else {
                            assert(sn[j + 1] == u);
                        }
                    }
                    lemma_stack_cycle(es@, sn, se, u, x as int, s as int);
                }
                let ghost cyc = stack_cycle(se, s as int, x as int);
                proof {
                    lemma_first_position(sn, c, s as int);
                }
                let mut k: usize = s;
                while k < stack_edges.len()
                    invariant
                        mark_from(es@, se, s as int, m_x) == mark_from(es@, se, k as int, marked@),
                        se == stack_edges@,
                        s <= k <= se.len(),
                        closed_walk(es@, cyc),
                        cyc.len() == se.len() - s + 1,
                        forall|j: int| 0 <= j < se.len() - s ==> cyc[j] == se[s + j] as int,
                        cyc.last() == x as int,
                        forall|j: int| 0 <= j < se.len() ==> (#[trigger] se[j]) < es@.len(),
                        marked@.len() == m0.len(),
                        graph_wf(es@, n, m0.len() as int),
                        forall|i: int| 0 <= i < m0.len() && m0[i] ==> marked@[i],
                        marked_sound(es@, marked@),
                        self_loops_marked(es@, visited@, marked@),
                        forall|e: int|
                            0 <= e < x && (#[trigger] es@[e]).from == u && es@[e].to == u
                                ==> marked@[es@[e].directive as int],
                        unmarked_closed(es@, visited@, marked@),
                        finished_cycles_marked(es@, visited@, marked@),
                        visited@.len() == n,
                        forall|e: int|
                            0 <= e < x && (#[trigger] es@[e]).from == u ==> marked@[es@[e].directive as int]
                                || visited@[es@[e].to as int],
                    decreases se.len() - k,
                {
                    let inc = es[stack_edges[k]].directive;
                    proof {
                        let r = k - s;
                        lemma_rotate(es@, cyc, r);
                        let w = cyc.subrange(r, cyc.len() as int) + cyc.subrange(0, r);
                        assert(w[0] == se[k as int] as int);
                        assert forall|i: int|
                            0 <= i < marked@.len() && #[trigger] marked@.update(inc as int, true)[i]
                                implies exists|w2: Seq<int>| closed_walk(es@, w2) && es@[w2[0]].directive == i by {
                            if i == inc as int {
                                assert(closed_walk(es@, w) && es@[w[0]].directive == i);
                            } else {
                                assert(marked@[i]);
                            }
                        }
                    }
                    proof {
                        lemma_mark_keeps(es@, visited@, marked@, inc as int);
                    }
                    marked.set(inc, true);
                    k = k + 1;
                }
                proof {
                    let r = cyc.len() - 1;
                    lemma_rotate(es@, cyc, r);
                    let w = cyc.subrange(r, cyc.len() as int) + cyc.subrange(0, r);
                    let inc = edge.directive;
                    assert forall|i: int|
                        0 <= i < marked@.len() && #[trigger] marked@.update(inc as int, true)[i] implies exists|
                            w2: Seq<int>,
                        | closed_walk(es@, w2) && es@[w2[0]].directive == i by {
                        if i == inc as int {
                            assert(closed_walk(es@, w) && es@[w[0]].directive == i);
                        } else {
                            assert(marked@[i]);
                        }
                    }
                }
                proof {
                    lemma_mark_keeps(es@, visited@, marked@, edge.directive as int);
                    assert(mark_from(es@, se, k as int, marked@) == marked@);
                    assert(sn == sn0.push(u));
                    assert(sn.contains(c)) by {
                        assert(sn[s as int] == c);
                    }
                }
                marked.set(edge.directive, true);
            } else if !visited[c] {
                let ghost vis1 = visited@;
                stack_edges.push(x);
                proof {
                    assert(c != u);
                    assert forall|v: int| 0 <= v < n implies (on_stack@[v] <==> stack_nodes@.contains(v as usize)) by {
                        let top = stack_nodes@.len() - 1;
                        assert(stack_nodes@[top] == u);
                        if v == u as int {
                            assert(on_stack@[v]);
                            assert(v as usize == u);
                        } else if on_stack@[v] {
                            assert(stk0[v]);
                            assert(sn0.contains(v as usize));
                            let j = choose|j: int| 0 <= j < sn0.len() && sn0[j] == v as usize;
                            assert(stack_nodes@[j] == v as usize);
                        } else {
                            assert(!stk0[v]);
                            assert(!sn0.contains(v as usize));
                            if stack_nodes@.contains(v as usize) {
                                let j = choose|j: int| 0 <= j < stack_nodes@.len() && stack_nodes@[j] == v as usize;
                                if j < sn0.len() {
                                    assert(sn0[j] == v as usize);
                                    assert(sn0.contains(v as usize));
                                } else {
                                    assert(j == top);
                                    assert(v as usize != u);
                                }
                            }
                        }
                    }
                    assert forall|j: int| 0 <= j < stack_nodes@.len() implies (#[trigger] stack_nodes@[j]) < n by {
                        if j < sn0.len() {
                            assert(stack_nodes@[j] == sn0[j]);
                        }
                    }
                    assert forall|j: int|
                        0 <= j < stack_edges@.len() implies (#[trigger] stack_edges@[j]) < es@.len()
                            && es@[stack_edges@[j] as int].from == stack_nodes@[j]
                            && es@[stack_edges@[j] as int].to == (if j + 1 < stack_nodes@.len() {
                                stack_nodes@[j + 1]
                            } else {
                                c
                            }) by {
                        if j < se0.len() {
                            assert(stack_edges@[j] == se0[j]);
                            assert(stack_nodes@[j] == sn0[j]);
                            if j + 1 < sn0.len() {
                                assert(stack_nodes@[j + 1] == sn0[j + 1]);
                            } else {
                                assert(stack_nodes@[j + 1] == u);
                            }
                        } else {
                            assert(stack_edges@[j] == x);
                            assert(stack_nodes@[j] == u);
                        }
                    }
                    assert forall|j: int| 0 <= j < n && (!visited@[j] && !on_stack@[j]) implies (!vis0[j]
                        && !stk0[j]) by {
                        if j != u as int {
                            assert(on_stack@[j] == stk0[j]);
                        }
                    }
                    lemma_fresh_strict(visited@, on_stack@, vis0, stk0, n, u as int);
                }
                let ghost vis_before = visited@;
                let ghost marked_before = marked@;
                proof {
                    assert(!sn0.push(u).contains(c));
                    assert(fuel > 0);
                }
                walk(c, es, visited, on_stack, stack_nodes, stack_edges, marked, Ghost((fuel - 1) as nat));
                proof {
                    assert forall|e: int|
                        0 <= e < x && (#[trigger] es@[e]).from == u implies marked@[es@[e].directive as int]
                            || visited@[es@[e].to as int] by {
                        if marked_before[es@[e].directive as int] {
                            assert(marked@[es@[e].directive as int]);
                        } else {
                            assert(vis_before[es@[e].to as int]);
                        }
                    }
                }
                stack_edges.pop();
                proof {
                    assert(stack_edges@ =~= se0);
                }
            }
        }
        x = x + 1;
    }
    stack_nodes.pop();
    on_stack.set(u, false);
    proof {
        assert(stack_nodes@ =~= sn0);
        assert(on_stack@ =~= stk0);
    }
    let ghost vis2 = visited@;
    proof {
        lemma_finish(es@, visited@, marked@, u as int);
    }
    visited.set(u, true);
    proof {
        assert forall|e: int|
            0 <= e < es@.len() && (#[trigger] es@[e]).from == es@[e].to && visited@[es@[e].from as int]
                implies marked@[es@[e].directive as int] by {
            if es@[e].from != u {
                assert(vis2[es@[e].from as int]);
            }
        }
    }
}

/// The position of the first name equal to `d`.
fn node_of(names: &Vec<String>, d: &DocumentId) -> (r: usize)
    requires
        exists|j: int| 0 <= j < names@.len() && (#[trigger] names@[j])@ == d@,
    ensures
        r < names@.len(),
        names@[r as int]@ == d@,
        forall|j: int| 0 <= j < r ==> (#[trigger] names@[j])@ != d@,
{
    let mut i: usize = 0;
    while i < names.len() && !crate::text::str_eq(names[i].as_str(), d.0.as_str())
        invariant
            i <= names@.len(),
            forall|j: int| 0 <= j < i ==> (#[trigger] names@[j])@ != d@,
        decreases names@.len() - i,
    {
        i = i + 1;
    }
    proof {
        let j = choose|j: int| 0 <= j < names@.len() && (#[trigger] names@[j])@ == d@;
        assert(j >= i);
    }
    i
}

/// Names by their characters.
pub open spec fn name_views(names: Seq<String>) -> Seq<Seq<char>> {
    names.map_values(|x: String| x@)
}

/// Each name sorts strictly before the next.
pub open spec fn strictly_ascending(s: Seq<Seq<char>>) -> bool {
    forall|a: int, b: int| 0 <= a < b < s.len() ==> seq_lt(#[trigger] s[a], #[trigger] s[b])
}

/// `d` is a document of link `(i, k)`: the including document of include `i` or its `k`-th
/// discovered document.
pub open spec fn link_at(incs: Seq<ResolvedInclude>, i: int, k: int, d: Seq<char>) -> bool {
    incs[i].including_document@ == d || incs[i].discovered_documents@[k]@ == d
}

/// `d` is a document of some link: the including document of an include that discovered a
/// document, or a discovered document.
pub open spec fn link_document(incs: Seq<ResolvedInclude>, d: Seq<char>) -> bool {
    exists|i: int, k: int| 0 <= i < incs.len() && 0 <= k < incs[i].discovered_documents@.len() && #[trigger] link_at(incs, i, k, d)
}

/// `names` numbers the documents of the links of `incs`: each once, in ascending order.
pub open spec fn numbered_documents(incs: Seq<ResolvedInclude>, names: Seq<Seq<char>>) -> bool {
    &&& strictly_ascending(names)
    &&& forall|d: Seq<char>| #[trigger] names.contains(d) <==> link_document(incs, d)
}

/// The documents of the links of `incs`, each once, in ascending order.
pub open spec fn link_documents(incs: Seq<ResolvedInclude>) -> Seq<Seq<char>> {
    choose|names: Seq<Seq<char>>| numbered_documents(incs, names)
}

/// Two ascending lists of the same names are the same list.
pub proof fn lemma_ascending_unique(a: Seq<Seq<char>>, b: Seq<Seq<char>>)
    requires
        strictly_ascending(a),
        strictly_ascending(b),
        forall|d: Seq<char>| a.contains(d) <==> b.contains(d),
    ensures
        a == b,
    decreases a.len() + b.len(),
{
    if a.len() == 0 {
        if b.len() > 0 {
            assert(b.contains(b[0]));
        }
        assert(b =~= a);
    } else if b.len() == 0 {
        assert(a.contains(a[0]));
    } else {
        assert(a.contains(a[0]));
        assert(b.contains(b[0]));
        let i = choose|i: int| 0 <= i < b.len() && b[i] == a[0];
        let j = choose|j: int| 0 <= j < a.len() && a[j] == b[0];
        if i > 0 {
            assert(seq_lt(b[0], b[i]));
            if j > 0 {
                assert(seq_lt(a[0], a[j]));
                crate::rule::lemma_seq_lt_asym(a[0], b[0]);
            } else {
                crate::rule::lemma_seq_lt_irreflexive(a[0]);
            }
        }
        assert(a[0] == b[0]);
        let a1 = a.drop_first();
        let b1 = b.drop_first();
        assert forall|d: Seq<char>| a1.contains(d) <==> b1.contains(d) by {
            if a1.contains(d) {
                let x = choose|x: int| 0 <= x < a1.len() && a1[x] == d;
                assert(a[x + 1] == d);
                assert(seq_lt(a[0], a[x + 1]));
                crate::rule::lemma_seq_lt_irreflexive(d);
                assert(b.contains(d));
                let y = choose|y: int| 0 <= y < b.len() && b[y] == d;
                assert(y != 0);
                assert(b1[y - 1] == d);
            }
            if b1.contains(d) {
                let x = choose|x: int| 0 <= x < b1.len() && b1[x] == d;
                assert(b[x + 1] == d);
                assert(seq_lt(b[0], b[x + 1]));
                crate::rule::lemma_seq_lt_irreflexive(d);
                assert(a.contains(d));
                let y = choose|y: int| 0 <= y < a.len() && a[y] == d;
                assert(y != 0);
                assert(a1[y - 1] == d);
            }
        }
        assert forall|p: int, q: int| 0 <= p < q < a1.len() implies seq_lt(#[trigger] a1[p], #[trigger] a1[q]) by {
            assert(a1[p] == a[p + 1] && a1[q] == a[q + 1]);
        }
        assert forall|p: int, q: int| 0 <= p < q < b1.len() implies seq_lt(#[trigger] b1[p], #[trigger] b1[q]) by {
            assert(b1[p] == b[p + 1] && b1[q] == b[q + 1]);
        }
        lemma_ascending_unique(a1, b1);
        assert(a =~= seq![a[0]] + a1);
        assert(b =~= seq![b[0]] + b1);
    }
}

/// Adds `d` to the ascending list of document names unless it is already there.
fn add_name(names: &mut Vec<String>, d: &DocumentId)
    requires
        strictly_ascending(name_views(old(names)@)),
    ensures
        strictly_ascending(name_views(final(names)@)),
        forall|x: Seq<char>|
            #[trigger] name_views(final(names)@).contains(x) <==> (name_views(old(names)@).contains(x) || x == d@),
{
    let ghost before = name_views(names@);
    let mut p: usize = 0;
    while p < names.len() && crate::rule::str_lt(names[p].as_str(), d.0.as_str())
        invariant
            p <= names@.len(),
            before == name_views(names@),
            forall|j: int| 0 <= j < p ==> seq_lt(#[trigger] before[j], d@),
        decreases names@.len() - p,
    {
        p = p + 1;
    }
    if p < names.len() && crate::text::str_eq(names[p].as_str(), d.0.as_str()) {
        proof {
            assert(before[p as int] == d@);
        }
        return;
    }
    proof {
        if p < before.len() {
            crate::rule::lemma_seq_lt_total(before[p as int], d@);
        }
    }
    names.insert(p, d.0.clone());
    proof {
        let after = name_views(names@);
        assert(after =~= before.insert(p as int, d@));
        assert forall|a: int, b: int| 0 <= a < b < after.len() implies seq_lt(#[trigger] after[a], #[trigger] after[b]) by {
            if b < p {
                assert(after[a] == before[a] && after[b] == before[b]);
            } else if b == p {
                assert(after[a] == before[a]);
            } else if a == p {
                assert(after[b] == before[b - 1]);
                if b - 1 > p {
                    assert(seq_lt(before[p as int], before[b - 1]));
                    crate::rule::lemma_seq_lt_trans(d@, before[p as int], before[b - 1]);
                }
            } else if a < p {
                assert(after[a] == before[a] && after[b] == before[b - 1]);
                assert(seq_lt(before[a], d@));
                if b - 1 == p {
                    crate::rule::lemma_seq_lt_trans(before[a], d@, before[p as int]);
                } else {
                    assert(seq_lt(before[p as int], before[b - 1]));
                    crate::rule::lemma_seq_lt_trans(d@, before[p as int], before[b - 1]);
                    crate::rule::lemma_seq_lt_trans(before[a], d@, before[b - 1]);
                }
            } else {
                assert(after[a] == before[a - 1] && after[b] == before[b - 1]);
            }
        }
        assert forall|x: Seq<char>| #[trigger] after.contains(x) <==> (before.contains(x) || x == d@) by {
            if after.contains(x) {
                let j = choose|j: int| 0 <= j < after.len() && after[j] == x;
                if j < p {
                    assert(before[j] == x);
                } else if j > p {
                    assert(before[j - 1] == x);
                }
            }
            if before.contains(x) {
                let j = choose|j: int| 0 <= j < before.len() && before[j] == x;
                if j < p {
                    assert(after[j] == x);
                } else {
                    assert(after[j + 1] == x);
                }
            }
            if x == d@ {
                assert(after[p as int] == x);
            }
        }
    }
}

spec fn names_hold(names: Seq<String>, d: Seq<char>) -> bool {
    exists|j: int| 0 <= j < names.len() && (#[trigger] names[j])@ == d
}

proof fn lemma_names_hold(names: Seq<String>, d: Seq<char>)
    ensures
        names_hold(names, d) <==> name_views(names).contains(d),
{
    if names_hold(names, d) {
        let j = choose|j: int| 0 <= j < names.len() && (#[trigger] names[j])@ == d;
        assert(name_views(names)[j] == d);
    }
    if name_views(names).contains(d) {
        let j = choose|j: int| 0 <= j < names.len() && name_views(names)[j] == d;
        assert(names[j]@ == d);
    }
}

/// `d` is a document of one of the first links: those of the first `i` includes, then the
/// first `k` of include `i`.
spec fn link_document_before(incs: Seq<ResolvedInclude>, i: int, k: int, d: Seq<char>) -> bool {
    exists|i2: int, k2: int|
        ((0 <= i2 < i && 0 <= k2 < incs[i2].discovered_documents@.len()) || (i2 == i && 0 <= k2 < k)) && #[trigger] link_at(
            incs,
            i2,
            k2,
            d,
        )
}

/// The ascending list of every document that declares or receives an include link.
#[verifier::rlimit(40)]
fn document_names(incs: &Vec<ResolvedInclude>) -> (r: Vec<String>)
    ensures
        numbered_documents(incs@, name_views(r@)),
        forall|i: int|
            0 <= i < incs@.len() && incs@[i].discovered_documents@.len() > 0 ==> names_hold(
                r@,
                #[trigger] incs@[i].including_document@,
            ),
        forall|i: int, k: int|
            0 <= i < incs@.len() && 0 <= k < incs@[i].discovered_documents@.len() ==> names_hold(
                r@,
                (#[trigger] incs@[i].discovered_documents@[k])@,
            ),
{
    let mut names: Vec<String> = Vec::new();
    let mut i: usize = 0;
    proof {
        assert(name_views(names@) =~= Seq::<Seq<char>>::empty());
    }
    while i < incs.len()
        invariant
            i <= incs@.len(),
            strictly_ascending(name_views(names@)),
            forall|d: Seq<char>| #[trigger] name_views(names@).contains(d) <==> link_document_before(incs@, i as int, 0, d),
        decreases incs@.len() - i,
    {
        let inc = &incs[i];
        let mut k: usize = 0;
        proof {
            assert forall|d: Seq<char>| link_document_before(incs@, i as int, 0, d) == link_document_before(incs@, i as int, k as int, d) by {}
        }
        while k < inc.discovered_documents.len()
            invariant
                i < incs@.len(),
                *inc == incs@[i as int],
                k <= inc.discovered_documents@.len(),
                strictly_ascending(name_views(names@)),
                forall|d: Seq<char>|
                    #[trigger] name_views(names@).contains(d) <==> link_document_before(incs@, i as int, k as int, d),
            decreases inc.discovered_documents@.len() - k,
        {
            let ghost n0 = name_views(names@);
            add_name(&mut names, &inc.including_document);
            add_name(&mut names, &inc.discovered_documents[k]);
            proof {
                assert forall|d: Seq<char>| #[trigger] name_views(names@).contains(d) <==> link_document_before(
                    incs@,
                    i as int,
                    k + 1,
                    d,
                ) by {
                    if link_document_before(incs@, i as int, k + 1, d) {
                        let (i2, k2) = choose|i2: int, k2: int|
                            ((0 <= i2 < i && 0 <= k2 < incs@[i2].discovered_documents@.len()) || (i2 == i && 0 <= k2
                                < k + 1)) && #[trigger] link_at(incs@, i2, k2, d);
                        if !(i2 == i && k2 == k) {
                            assert(link_document_before(incs@, i as int, k as int, d));
                        }
                    }
                    if d == inc.including_document@ || d == inc.discovered_documents@[k as int]@ {
                        assert(link_at(incs@, i as int, k as int, d));
                    }
                    if n0.contains(d) {
                        assert(link_document_before(incs@, i as int, k as int, d));
                        let (i2, k2) = choose|i2: int, k2: int|
                            ((0 <= i2 < i && 0 <= k2 < incs@[i2].discovered_documents@.len()) || (i2 == i && 0 <= k2
                                < k)) && #[trigger] link_at(incs@, i2, k2, d);
                        assert(link_at(incs@, i2, k2, d));
                    }
                }
            }
            k = k + 1;
        }
        proof {
            assert forall|d: Seq<char>| link_document_before(incs@, i as int, k as int, d) == link_document_before(
                incs@,
                i + 1,
                0,
                d,
            ) by {
                if link_document_before(incs@, i + 1, 0, d) {
                    let (i2, k2) = choose|i2: int, k2: int|
                        ((0 <= i2 < i + 1 && 0 <= k2 < incs@[i2].discovered_documents@.len()) || (i2 == i + 1 && 0
                            <= k2 < 0)) && #[trigger] link_at(incs@, i2, k2, d);
                    assert(link_at(incs@, i2, k2, d));
                }
                if link_document_before(incs@, i as int, k as int, d) {
                    let (i2, k2) = choose|i2: int, k2: int|
                        ((0 <= i2 < i && 0 <= k2 < incs@[i2].discovered_documents@.len()) || (i2 == i && 0 <= k2
                            < k)) && #[trigger] link_at(incs@, i2, k2, d);
                    assert(link_at(incs@, i2, k2, d));
                }
            }
        }
        i = i + 1;
    }
    proof {
        let nv = name_views(names@);
        assert forall|d: Seq<char>| #[trigger] nv.contains(d) <==> link_document(incs@, d) by {
            if link_document(incs@, d) {
                let (i2, k2) = choose|i2: int, k2: int|
                    0 <= i2 < incs@.len() && 0 <= k2 < incs@[i2].discovered_documents@.len() && #[trigger] link_at(
                        incs@,
                        i2,
                        k2,
                        d,
                    );
                assert(link_document_before(incs@, i as int, 0, d));
            }
            if nv.contains(d) {
                assert(link_document_before(incs@, i as int, 0, d));
                let (i2, k2) = choose|i2: int, k2: int|
                    ((0 <= i2 < i && 0 <= k2 < incs@[i2].discovered_documents@.len()) || (i2 == i && 0 <= k2 < 0))
                        && #[trigger] link_at(incs@, i2, k2, d);
                assert(link_at(incs@, i2, k2, d));
            }
        }
        assert forall|i2: int|
            0 <= i2 < incs@.len() && incs@[i2].discovered_documents@.len() > 0 implies names_hold(
            names@,
            #[trigger] incs@[i2].including_document@,
        ) by {
            assert(link_at(incs@, i2, 0, incs@[i2].including_document@));
            assert(link_document(incs@, incs@[i2].including_document@));
            lemma_names_hold(names@, incs@[i2].including_document@);
        }
        assert forall|i2: int, k2: int|
            0 <= i2 < incs@.len() && 0 <= k2 < incs@[i2].discovered_documents@.len() implies names_hold(
            names@,
            (#[trigger] incs@[i2].discovered_documents@[k2])@,
        ) by {
            assert(link_at(incs@, i2, k2, incs@[i2].discovered_documents@[k2]@));
            assert(link_document(incs@, incs@[i2].discovered_documents@[k2]@));
            lemma_names_hold(names@, incs@[i2].discovered_documents@[k2]@);
        }
    }
    names
}

/// Edge `e` stands for the link it names, between the first documents with those names.
spec fn edge_stands_for(incs: Seq<ResolvedInclude>, names: Seq<String>, e: IncludeEdge) -> bool {
    let l = (e.directive as int, e.slot as int);
    &&& valid_link(incs, l)
    &&& e.from < names.len()
    &&& e.to < names.len()
    &&& names[e.from as int]@ == link_from(incs, l)
    &&& names[e.to as int]@ == link_to(incs, l)
    &&& forall|j: int| 0 <= j < e.from ==> (#[trigger] names[j])@ != link_from(incs, l)
    &&& forall|j: int| 0 <= j < e.to ==> (#[trigger] names[j])@ != link_to(incs, l)
}

spec fn has_edge(es: Seq<IncludeEdge>, i: int, k: int) -> bool {
    exists|e: int| 0 <= e < es.len() && (#[trigger] es[e]).directive == i && es[e].slot == k
}

/// The number of document `d` among `names`: its first position.
pub open spec fn name_number(names: Seq<Seq<char>>, d: Seq<char>) -> int
    decreases names.len(),
{
    if names.len() == 0 {
        0
    } else if names[0] == d {
        0
    } else {
        1 + name_number(names.drop_first(), d)
    }
}

proof fn lemma_name_number(names: Seq<Seq<char>>, d: Seq<char>, p: int)
    requires
        0 <= p < names.len(),
        names[p] == d,
        forall|j: int| 0 <= j < p ==> names[j] != d,
    ensures
        name_number(names, d) == p,
    decreases p,
{
    if p > 0 {
        lemma_name_number(names.drop_first(), d, p - 1);
    }
}

/// The edge of link `(i, k)` between the documents numbered by `names`.
pub open spec fn link_edge(incs: Seq<ResolvedInclude>, names: Seq<Seq<char>>, i: int, k: int) -> IncludeEdge {
    IncludeEdge {
        directive: i as usize,
        slot: k as usize,
        from: name_number(names, incs[i].including_document@) as usize,
        to: name_number(names, incs[i].discovered_documents@[k]@) as usize,
    }
}

/// The edges of the links of the first `i` includes, in include order and then in discovery
/// order.
pub open spec fn link_edges(incs: Seq<ResolvedInclude>, names: Seq<Seq<char>>, i: int) -> Seq<IncludeEdge>
    decreases i,
{
    if i <= 0 {
        Seq::empty()
    } else {
        link_edges(incs, names, i - 1) + Seq::new(
            incs[i - 1].discovered_documents@.len(),
            |k: int| link_edge(incs, names, i - 1, k),
        )
    }
}

/// One numbered edge for every link, in include order and then in discovery order.
#[verifier::rlimit(30)]
fn include_edges(incs: &Vec<ResolvedInclude>, names: &Vec<String>) -> (r: Vec<IncludeEdge>)
    requires
        forall|i: int|
            0 <= i < incs@.len() && incs@[i].discovered_documents@.len() > 0 ==> names_hold(
                names@,
                #[trigger] incs@[i].including_document@,
            ),
        forall|i: int, k: int|
            0 <= i < incs@.len() && 0 <= k < incs@[i].discovered_documents@.len() ==> names_hold(
                names@,
                (#[trigger] incs@[i].discovered_documents@[k])@,
            ),
    ensures
        forall|e: int| 0 <= e < r@.len() ==> edge_stands_for(incs@, names@, #[trigger] r@[e]),
        forall|i: int, k: int|
            0 <= i < incs@.len() && 0 <= k < incs@[i].discovered_documents@.len() ==> #[trigger] has_edge(r@, i, k),
        r@ == link_edges(incs@, name_views(names@), incs@.len() as int),
{
    let ghost nv = name_views(names@);
    let mut edges: Vec<IncludeEdge> = Vec::new();
    let mut i: usize = 0;
    while i < incs.len()
        invariant
            i <= incs@.len(),
                forall|i3: int|
                0 <= i3 < incs@.len() && incs@[i3].discovered_documents@.len() > 0 ==> names_hold(
                    names@,
                    #[trigger] incs@[i3].including_document@,
                ),
            forall|i3: int, k3: int|
                0 <= i3 < incs@.len() && 0 <= k3 < incs@[i3].discovered_documents@.len() ==> names_hold(
                    names@,
                    (#[trigger] incs@[i3].discovered_documents@[k3])@,
                ),
            forall|e: int| 0 <= e < edges@.len() ==> edge_stands_for(incs@, names@, #[trigger] edges@[e]),
            forall|i2: int, k2: int|
                0 <= i2 < i && 0 <= k2 < incs@[i2].discovered_documents@.len() ==> #[trigger] has_edge(edges@, i2, k2),
            nv == name_views(names@),
            edges@ == link_edges(incs@, nv, i as int),
        decreases incs@.len() - i,
    {
        let inc = &incs[i];
        let mut k: usize = 0;
        while k < inc.discovered_documents.len()
            invariant
                i < incs@.len(),
                *inc == incs@[i as int],
                k <= inc.discovered_documents@.len(),
                forall|i3: int|
                    0 <= i3 < incs@.len() && incs@[i3].discovered_documents@.len() > 0 ==> names_hold(
                        names@,
                        #[trigger] incs@[i3].including_document@,
                    ),
                forall|i3: int, k3: int|
                    0 <= i3 < incs@.len() && 0 <= k3 < incs@[i3].discovered_documents@.len() ==> names_hold(
                        names@,
                        (#[trigger] incs@[i3].discovered_documents@[k3])@,
                    ),
                forall|e: int| 0 <= e < edges@.len() ==> edge_stands_for(incs@, names@, #[trigger] edges@[e]),
                forall|i2: int, k2: int|
                    (0 <= i2 < i && 0 <= k2 < incs@[i2].discovered_documents@.len()) || (i2 == i && 0 <= k2 < k)
                        ==> #[trigger] has_edge(edges@, i2, k2),
                nv == name_views(names@),
                edges@ == link_edges(incs@, nv, i as int) + Seq::new(k as nat, |kk: int| link_edge(incs@, nv, i as int, kk)),
            decreases inc.discovered_documents@.len() - k,
        {
            proof {
                assert(names_hold(names@, incs@[i as int].including_document@));
                assert(names_hold(names@, incs@[i as int].discovered_documents@[k as int]@));
            }
            let from = node_of(names, &inc.including_document);
            let to = node_of(names, &inc.discovered_documents[k]);
            let edge = IncludeEdge { directive: i, slot: k, from, to };
            let ghost before = edges@;
            edges.push(edge);
            proof {
                assert forall|j: int| 0 <= j < from implies nv[j] != inc.including_document@ by {
                    assert(nv[j] == names@[j]@);
                }
                assert forall|j: int| 0 <= j < to implies nv[j] != inc.discovered_documents@[k as int]@ by {
                    assert(nv[j] == names@[j]@);
                }
                lemma_name_number(nv, inc.including_document@, from as int);
                lemma_name_number(nv, inc.discovered_documents@[k as int]@, to as int);
                assert(edge == link_edge(incs@, nv, i as int, k as int));
                assert(edges@ =~= link_edges(incs@, nv, i as int) + Seq::new(
                    (k + 1) as nat,
                    |kk: int| link_edge(incs@, nv, i as int, kk),
                ));
                assert(edge_stands_for(incs@, names@, edge));
                assert forall|e: int| 0 <= e < edges@.len() implies edge_stands_for(
                    incs@,
                    names@,
                    #[trigger] edges@[e],
                ) by {
                    if e < before.len() {
                        assert(edges@[e] == before[e]);
                    }
                }
                assert forall|i2: int, k2: int|
                    (0 <= i2 < i && 0 <= k2 < incs@[i2].discovered_documents@.len()) || (i2 == i && 0 <= k2 < k
                        + 1) implies #[trigger] has_edge(edges@, i2, k2) by {
                    if i2 == i && k2 == k {
                        assert(edges@[before.len() as int] == edge);
                    } else {
                        assert(has_edge(before, i2, k2));
                        let e = choose|e: int|
                            0 <= e < before.len() && (#[trigger] before[e]).directive == i2 && before[e].slot == k2;
                        assert(edges@[e] == before[e]);
                    }
                }
            }
            k = k + 1;
        }
        proof {
            assert(edges@ =~= link_edges(incs@, nv, i + 1));
        }
        i = i + 1;
    }
    edges
}

/// A closed walk of edges names a closed walk of links through the include of its first edge.
proof fn lemma_lift_walk(incs: Seq<ResolvedInclude>, names: Seq<String>, es: Seq<IncludeEdge>, w: Seq<int>)
    requires
        forall|e: int| 0 <= e < es.len() ==> edge_stands_for(incs, names, #[trigger] es[e]),
        closed_walk(es, w),
    ensures
        include_on_cycle(incs, es[w[0]].directive as int),
{
    let lw = w.map_values(|e: int| (es[e].directive as int, es[e].slot as int));
    assert forall|j: int| 0 <= j < lw.len() implies valid_link(incs, #[trigger] lw[j]) by {
        assert(0 <= w[j] < es.len());
        assert(edge_stands_for(incs, names, es[w[j]]));
    }
    assert forall|j: int| 0 <= j < lw.len() - 1 implies #[trigger] joins(incs, lw[j], lw[j + 1]) by {
        assert(0 <= w[j] < es.len());
        assert(0 <= w[j + 1] < es.len());
        assert(edge_stands_for(incs, names, es[w[j]]));
        assert(edge_stands_for(incs, names, es[w[j + 1]]));
        assert(id_joins(es, w[j], w[j + 1]));
    }
    let last = w.len() - 1;
    assert(0 <= w[last] < es.len());
    assert(0 <= w[0] < es.len());
    assert(edge_stands_for(incs, names, es[w[last]]));
    assert(edge_stands_for(incs, names, es[w[0]]));
    assert(lw.last() == lw[last]);
    assert(include_cycle_walk(incs, es[w[0]].directive as int, lw));
}

proof fn lemma_first_name(names: Seq<String>, x: Seq<char>, a: int, b: int)
    requires
        0 <= a < names.len(),
        0 <= b < names.len(),
        names[a]@ == x,
        names[b]@ == x,
        forall|j: int| 0 <= j < a ==> (#[trigger] names[j])@ != x,
        forall|j: int| 0 <= j < b ==> (#[trigger] names[j])@ != x,
    ensures
        a == b,
{
    if a < b {
        assert(names[a]@ != x);
    } else if b < a {
        assert(names[b]@ != x);
    }
}

/// A closed walk of links is a closed walk of the edges that stand for them.
proof fn lemma_lower_walk(
    incs: Seq<ResolvedInclude>,
    names: Seq<String>,
    es: Seq<IncludeEdge>,
    i: int,
    w: Seq<(int, int)>,
) -> (ew: Seq<int>)
    requires
        forall|e: int| 0 <= e < es.len() ==> edge_stands_for(incs, names, #[trigger] es[e]),
        forall|a: int, k: int|
            0 <= a < incs.len() && 0 <= k < incs[a].discovered_documents@.len() ==> #[trigger] has_edge(es, a, k),
        include_cycle_walk(incs, i, w),
    ensures
        closed_walk(es, ew),
        ew.len() == w.len(),
        forall|j: int| 0 <= j < w.len() ==> es[#[trigger] ew[j]].directive == w[j].0,
{
    let pick = |l: (int, int)| choose|e: int| 0 <= e < es.len() && (#[trigger] es[e]).directive == l.0 && es[e].slot == l.1;
    let ew = w.map_values(|l: (int, int)| pick(l));
    assert forall|j: int| 0 <= j < w.len() implies 0 <= #[trigger] ew[j] < es.len() && es[ew[j]].directive == w[j].0
        && es[ew[j]].slot == w[j].1 by {
        assert(valid_link(incs, w[j]));
        assert(has_edge(es, w[j].0, w[j].1));
    }
    assert forall|j: int, k: int|
        0 <= j < w.len() && 0 <= k < w.len() && joins(incs, w[j], w[k]) implies id_joins(es, ew[j], ew[k]) by {
        let ej = es[ew[j]];
        let ek = es[ew[k]];
        assert(edge_stands_for(incs, names, ej));
        assert(edge_stands_for(incs, names, ek));
        lemma_first_name(names, link_to(incs, w[j]), ej.to as int, ek.from as int);
    }
    assert forall|j: int| 0 <= j < ew.len() - 1 implies #[trigger] id_joins(es, ew[j], ew[j + 1]) by {
        assert(joins(incs, w[j], w[j + 1]));
    }
    assert(joins(incs, w.last(), w[0]));
    assert(ew.last() == ew[w.len() - 1]);
    ew
}

/// The includes that take part in an include cycle, in ascending order.
///
/// Each reported include lies on a cycle of include links; every cycle of include links has a
/// reported include; and every include that discovered its own including document is reported.
/// Which further cycle links are reported follows the depth-first walk, in document-name order
/// and then in include order.
#[verifier::rlimit(40)]
/// The includes a depth-first walk reports for closing a cycle, in ascending order. The walk
/// numbers the documents of the links in ascending order and starts from each document not yet
/// finished, in that order; from a document it follows its links in include order and then in
/// discovery order. A link back to a document on the walk's path reports the includes of the
/// path's links from that document on, and its own.
pub open spec fn cycle_report(incs: Seq<ResolvedInclude>) -> Seq<usize> {
    let names = link_documents(incs);
    let n = names.len() as int;
    let walked = dfs_roots(
        link_edges(incs, names, incs.len() as int),
        n,
        n as nat,
        0,
        Seq::new(n as nat, |j: int| false),
        Seq::new(incs.len(), |j: int| false),
    );
    marked_positions(walked.1, incs.len() as int)
}

pub fn cycle_include_indices(resolved_includes: &Vec<ResolvedInclude>) -> (r: Vec<usize>)
    ensures
        r@ == cycle_report(resolved_includes@),
        forall|j: int| 0 <= j < r@.len() ==> (#[trigger] r@[j]) < resolved_includes@.len(),
        forall|j: int| 0 <= j < r@.len() ==> include_on_cycle(resolved_includes@, #[trigger] r@[j] as int),
        forall|a: int, b: int| 0 <= a < b < r@.len() ==> r@[a] < r@[b],
        forall|i: int|
            0 <= i < resolved_includes@.len() && includes_itself(resolved_includes@, i) ==> r@.contains(
                i as usize,
            ),
        forall|i: int, w: Seq<(int, int)>|
            #[trigger] include_cycle_walk(resolved_includes@, i, w) ==> exists|j: int|
                0 <= j < w.len() && r@.contains(w[j].0 as usize),
{
    let names = document_names(resolved_includes);
    let es = include_edges(resolved_includes, &names);
    proof {
        let nv = name_views(names@);
        assert(numbered_documents(resolved_includes@, link_documents(resolved_includes@)));
        lemma_ascending_unique(nv, link_documents(resolved_includes@));
    }
    let n = names.len();
    let mut visited: Vec<bool> = Vec::new();
    let mut on_stack: Vec<bool> = Vec::new();
    let mut v: usize = 0;
    while v < n
        invariant
            v <= n,
            visited@.len() == v,
            on_stack@.len() == v,
            forall|j: int| 0 <= j < v ==> !(#[trigger] visited@[j]),
            forall|j: int| 0 <= j < v ==> !(#[trigger] on_stack@[j]),
        decreases n - v,
    {
        visited.push(false);
        on_stack.push(false);
        v = v + 1;
    }
    let mut marked: Vec<bool> = Vec::new();
    let mut i: usize = 0;
    while i < resolved_includes.len()
        invariant
            i <= resolved_includes@.len(),
            marked@.len() == i,
            forall|j: int| 0 <= j < i ==> !(#[trigger] marked@[j]),
        decreases resolved_includes@.len() - i,
    {
        marked.push(false);
        i = i + 1;
    }
    let mut stack_nodes: Vec<usize> = Vec::new();
    let mut stack_edges: Vec<usize> = Vec::new();
    proof {
        assert forall|e: int| 0 <= e < es@.len() implies (#[trigger] es@[e]).from < n && es@[e].to < n
            && es@[e].directive < marked@.len() by {
            assert(edge_stands_for(resolved_includes@, names@, es@[e]));
        }
    }
    proof {
        assert forall|w: Seq<int>| #[trigger] finished_walk(es@, visited@, w) implies exists|j: int|
            0 <= j < w.len() && marked@[es@[#[trigger] w[j]].directive as int] by {
            assert(0 <= w[0] < es@.len());
            assert(visited@[es@[w[0]].from as int]);
        }
    }
    let ghost v_init = visited@;
    let ghost m_init = marked@;
    proof {
        assert(v_init =~= Seq::new(n as nat, |j: int| false));
        assert(m_init =~= Seq::new(resolved_includes@.len(), |j: int| false));
    }
    let mut root: usize = 0;
    while root < n
        invariant
            dfs_roots(es@, n as int, n as nat, root as int, visited@, marked@) == dfs_roots(
                es@,
                n as int,
                n as nat,
                0,
                v_init,
                m_init,
            ),
            root <= n,
            n == names@.len(),
            visited@.len() == n,
            on_stack@.len() == n,
            marked@.len() == resolved_includes@.len(),
            forall|j: int| 0 <= j < n ==> !(#[trigger] on_stack@[j]),
            stack_nodes@.len() == 0,
            stack_edges@.len() == 0,
            graph_wf(es@, n as int, marked@.len() as int),
            forall|j: int| 0 <= j < root ==> #[trigger] visited@[j],
            marked_sound(es@, marked@),
            self_loops_marked(es@, visited@, marked@),
            unmarked_closed(es@, visited@, marked@),
            finished_cycles_marked(es@, visited@, marked@),
        decreases n - root,
    {
        if !visited[root] {
            proof {
                lemma_fresh_bound(visited@, on_stack@, n as int);
                assert(stack_nodes@ =~= Seq::<usize>::empty());
                assert(stack_edges@ =~= Seq::<usize>::empty());
            }
            walk(
                root,
                &es,
                &mut visited,
                &mut on_stack,
                &mut stack_nodes,
                &mut stack_edges,
                &mut marked,
                Ghost(n as nat),
            );
        }
        root = root + 1;
    }
    let ghost m_final = marked@;
    proof {
        assert(m_final == dfs_roots(es@, n as int, n as nat, 0, v_init, m_init).1);
    }
    let mut r: Vec<usize> = Vec::new();
    let mut k: usize = 0;
    while k < marked.len()
        invariant
            r@ == marked_positions(marked@, k as int),
            k <= marked@.len(),
            marked@.len() == resolved_includes@.len(),
            marked_sound(es@, marked@),
            forall|e: int| 0 <= e < es@.len() ==> edge_stands_for(resolved_includes@, names@, #[trigger] es@[e]),
            forall|j: int| 0 <= j < r@.len() ==> (#[trigger] r@[j]) < k,
            forall|j: int| 0 <= j < r@.len() ==> marked@[#[trigger] r@[j] as int],
            forall|a: int, b: int| 0 <= a < b < r@.len() ==> r@[a] < r@[b],
            forall|j: int| 0 <= j < k && #[trigger] marked@[j] ==> r@.contains(j as usize),
        decreases marked@.len() - k,
    {
        if marked[k] {
            let ghost before = r@;
            r.push(k);
            proof {
                assert forall|j: int| 0 <= j < k + 1 && #[trigger] marked@[j] implies r@.contains(j as usize) by {
                    if j == k {
                        assert(r@[before.len() as int] == k);
                    } else {
                        let t = choose|t: int| 0 <= t < before.len() && before[t] == j as usize;
                        assert(r@[t] == j as usize);
                    }
                }
            }
        }
        k = k + 1;
    }
    proof {
        assert forall|j: int| 0 <= j < r@.len() implies include_on_cycle(
            resolved_includes@,
            #[trigger] r@[j] as int,
        ) by {
            let i = r@[j] as int;
            assert(marked@[i]);
            let w = choose|w: Seq<int>| closed_walk(es@, w) && es@[w[0]].directive == i;
            lemma_lift_walk(resolved_includes@, names@, es@, w);
        }
        assert forall|i: int, w: Seq<(int, int)>|
            #[trigger] include_cycle_walk(resolved_includes@, i, w) implies exists|j: int|
                0 <= j < w.len() && r@.contains(w[j].0 as usize) by {
            let ew = lemma_lower_walk(resolved_includes@, names@, es@, i, w);
            assert forall|j: int| 0 <= j < ew.len() implies visited@[es@[#[trigger] ew[j]].from as int] by {
                assert(0 <= ew[j] < es@.len());
            }
            assert(finished_walk(es@, visited@, ew));
            let j = choose|j: int| 0 <= j < ew.len() && marked@[es@[#[trigger] ew[j]].directive as int];
            assert(es@[ew[j]].directive == w[j].0);
            assert(0 <= w[j].0 < marked@.len()) by {
                assert(valid_link(resolved_includes@, w[j]));
            }
            assert(r@.contains(w[j].0 as usize));
        }
        assert forall|i: int|
            0 <= i < resolved_includes@.len() && includes_itself(resolved_includes@, i) implies r@.contains(
            i as usize,
        ) by {
            let kk = choose|kk: int|
                0 <= kk < resolved_includes@[i].discovered_documents@.len() && (
                #[trigger] resolved_includes@[i].discovered_documents@[kk])@
                    == resolved_includes@[i].including_document@;
            assert(has_edge(es@, i, kk));
            let e = choose|e: int| 0 <= e < es@.len() && (#[trigger] es@[e]).directive == i && es@[e].slot == kk;
            assert(edge_stands_for(resolved_includes@, names@, es@[e]));
            let a = es@[e].from as int;
            let b = es@[e].to as int;
            if a < b {
                assert(names@[a]@ != link_to(resolved_includes@, (i, kk)));
            } else if b < a {
                assert(names@[b]@ != link_from(resolved_includes@, (i, kk)));
            }
            assert(visited@[a]);
            assert(marked@[i]);
        }
    }
    r
}

} // verus!
