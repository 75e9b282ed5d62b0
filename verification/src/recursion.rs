//! TYPL-206: composites (structs and unions) that reach themselves through
//! their composite-typed references, directly or through any chain of
//! composites, across packages.

use vstd::prelude::*;

use crate::chars::str_eq;
use crate::diag::{diags_view, DiagCode, Diagnostic, Severity};
use crate::resolve::{
    count_true, edge, graph_wf, is_walk, lemma_count_true_bound, lemma_count_true_set, reaches_spec,
    SDiag,
};
use crate::syntax::TextRange;

verus! {

/// A walk along the composite reference graph, by node index.
pub open spec fn usize_walk(edges: Seq<Vec<usize>>, p: Seq<usize>) -> bool {
    &&& p.len() >= 1
    &&& forall|i: int| 0 <= i < p.len() - 1 ==> #[trigger] edge(edges, p[i] as int, p[i + 1] as int)
}

/// Every composite reference out of `v` leads to a visited node other than
/// `start`.
pub open spec fn closed_at(edges: Seq<Vec<usize>>, visited: Seq<bool>, v: int, start: int) -> bool {
    forall|j: int|
        0 <= j < edges[v]@.len() ==> visited[#[trigger] edges[v]@[j] as int] && edges[v]@[j] != start
}

proof fn lemma_walk_prepend(edges: Seq<Vec<usize>>, a: usize, q: Seq<usize>)
    requires
        usize_walk(edges, q),
        edge(edges, a as int, q[0] as int),
    ensures
        usize_walk(edges, seq![a] + q),
{
    let p = seq![a] + q;
    assert forall|i: int| 0 <= i < p.len() - 1 implies #[trigger] edge(edges, p[i] as int, p[i + 1] as int) by {
        if i > 0 {
            assert(p[i] == q[i - 1] && p[i + 1] == q[i]);
            assert(edge(edges, q[i - 1] as int, q[(i - 1) + 1] as int));
        }
    }
}

/// Closure is kept as more nodes are visited.
proof fn lemma_closed_grows(edges: Seq<Vec<usize>>, a: Seq<bool>, b: Seq<bool>, v: int, start: int)
    requires
        graph_wf(edges),
        0 <= v < edges.len(),
        a.len() == edges.len(),
        b.len() == edges.len(),
        forall|x: int| 0 <= x < edges.len() && a[x] ==> b[x],
        closed_at(edges, a, v, start),
    ensures
        closed_at(edges, b, v, start),
{
    assert forall|j: int| 0 <= j < edges[v]@.len() implies b[#[trigger] edges[v]@[j] as int] && edges[v]@[j]
        != start by {
        assert(edges[v]@[j] < edges.len());
    }
}

/// Depth-first search for a way back to `start` from `node`, skipping nodes
/// already visited; on success `path` is extended by the nodes after `node`
/// up to and including `start`.
fn reaches_start(
    edges: &[Vec<usize>],
    node: usize,
    start: usize,
    visited: &mut Vec<bool>,
    path: &mut Vec<usize>,
) -> (r: bool)
    requires
        graph_wf(edges@),
        node < edges.len(),
        start < edges.len(),
        old(visited)@.len() == edges.len(),
        !old(visited)@[start as int],
    ensures
        final(visited)@.len() == edges.len(),
        !final(visited)@[start as int],
        forall|v: int| 0 <= v < edges.len() && old(visited)@[v] ==> final(visited)@[v],
        count_true(final(visited)@) >= count_true(old(visited)@),
        r ==> final(path)@.len() > old(path)@.len() && final(path)@.take(old(path)@.len() as int)
            == old(path)@ && final(path)@.last() == start && usize_walk(
            edges@,
            seq![node] + final(path)@.skip(old(path)@.len() as int),
        ),
        !r ==> final(path)@ == old(path)@,
        !r ==> closed_at(edges@, final(visited)@, node as int, start as int),
        !r ==> forall|v: int|
            0 <= v < edges.len() && final(visited)@[v] && !old(visited)@[v] ==> closed_at(
                edges@,
                final(visited)@,
                v,
                start as int,
            ),
    decreases edges.len() - count_true(old(visited)@),
{
    let n = edges.len();
    let ghost vis0 = visited@;
    let ghost path0 = path@;
    proof {
        lemma_count_true_bound(vis0);
    }
    let mut i: usize = 0;
    while i < edges[node].len()
        invariant
            graph_wf(edges@),
            node < n,
            start < n,
            n == edges.len(),
            vis0.len() == n,
            vis0 == old(visited)@,
            path0 == old(path)@,
            visited@.len() == n,
            !visited@[start as int],
            forall|v: int| 0 <= v < n && vis0[v] ==> visited@[v],
            count_true(visited@) >= count_true(vis0),
            count_true(vis0) <= n,
            path@ == path0,
            i <= edges[node as int]@.len(),
            forall|j: int|
                0 <= j < i ==> visited@[#[trigger] edges[node as int]@[j] as int] && edges[node as int]@[j]
                    != start,
            forall|v: int|
                0 <= v < n && visited@[v] && !vis0[v] ==> closed_at(edges@, visited@, v, start as int),
        decreases edges[node as int]@.len() - i,
    {
        let e = edges[node][i];
        assert(edges@[node as int]@[i as int] < n);
        proof {
            assert(edge(edges@, node as int, e as int));
        }
        path.push(e);
        if e == start {
            proof {
                assert(path@.take(path0.len() as int) =~= path0);
                assert(path@.skip(path0.len() as int) =~= seq![e]);
                lemma_walk_prepend(edges@, node, seq![e]);
            }
            return true;
        }
        if !visited[e] {
            let ghost before = visited@;
            let ghost with_e = path@;
            proof {
                lemma_count_true_set(before, e as int);
                lemma_count_true_bound(before.update(e as int, true));
            }
            visited.set(e, true);
            let found = reaches_start(edges, e, start, visited, path);
            if found {
                proof {
                    assert(with_e.take(path0.len() as int) =~= path0);
                    assert(path@.take(path0.len() as int) =~= path0) by {
                        assert(path@.take(with_e.len() as int).take(path0.len() as int) =~= path@.take(
                            path0.len() as int,
                        ));
                    }
                    let tail = path@.skip(with_e.len() as int);
                    assert(path@.skip(path0.len() as int) =~= seq![e] + tail) by {
                        assert(path@[path0.len() as int] == with_e[path0.len() as int]) by {
                            assert(path@.take(with_e.len() as int)[path0.len() as int] == with_e[path0.len() as int]);
                        }
                    }
                    assert(usize_walk(edges@, seq![e] + tail));
                    lemma_walk_prepend(edges@, node, seq![e] + tail);
                    assert(seq![node] + path@.skip(path0.len() as int) =~= seq![node] + (seq![e] + tail));
                }
                return true;
            }
            proof {
                assert forall|v: int|
                    0 <= v < n && visited@[v] && !vis0[v] implies closed_at(edges@, visited@, v, start as int) by {
                    if v != e as int && before[v] {
                        lemma_closed_grows(edges@, before, visited@, v, start as int);
                    }
                }
            }
        }
        let ghost full = path@;
        path.pop();
        proof {
            assert(path@ =~= path0) by {
                assert(full =~= path0.push(e));
            }
        }
        i = i + 1;
    }
    false
}

/// Every walk of one or more steps from `start` stays among the visited
/// nodes and never comes back to `start` when `start` and every visited node
/// are closed.
proof fn lemma_no_return(edges: Seq<Vec<usize>>, visited: Seq<bool>, start: int, p: Seq<int>)
    requires
        graph_wf(edges),
        visited.len() == edges.len(),
        0 <= start < edges.len(),
        closed_at(edges, visited, start, start),
        forall|v: int| 0 <= v < edges.len() && visited[v] ==> closed_at(edges, visited, v, start),
        p.len() >= 2,
        is_walk(edges, p),
        p[0] == start,
    ensures
        0 <= p.last() < edges.len() && visited[p.last()] && p.last() != start,
    decreases p.len(),
{
    let n = p.len();
    let i = n - 2;
    assert(edge(edges, p[i], p[i + 1]));
    let a = p[i];
    let j = choose|j: int| 0 <= j < edges[a]@.len() && #[trigger] edges[a]@[j] == p[n - 1];
    if n > 2 {
        let q = p.drop_last();
        assert forall|k: int| 0 <= k < q.len() - 1 implies #[trigger] edge(edges, q[k], q[k + 1]) by {
            assert(edge(edges, p[k], p[k + 1]));
        }
        lemma_no_return(edges, visited, start, q);
        assert(closed_at(edges, visited, a, start));
    }
    assert(edges[a]@[j] < edges.len());
}

/// The cycle through composite `start`, if there is one: the composites
/// after `start` along a walk that comes back to it, `start` last. There is
/// one exactly when `start` reaches itself ([`reaches_spec`]).
pub fn composite_cycle(edges: &[Vec<usize>], start: usize) -> (r: Option<Vec<usize>>)
    requires
        graph_wf(edges@),
        start < edges.len(),
    ensures
        r is Some <==> reaches_spec(edges@, start as int, start as int),
        r matches Some(p) ==> p@.len() >= 1 && p@.last() == start && usize_walk(edges@, seq![start] + p@),
{
    let n = edges.len();
    let mut visited: Vec<bool> = Vec::new();
    while visited.len() < n
        invariant
            visited.len() <= n,
            forall|v: int| 0 <= v < visited.len() ==> !visited@[v],
        decreases n - visited.len(),
    {
        visited.push(false);
    }
    let ghost vis0 = visited@;
    let mut path: Vec<usize> = Vec::new();
    if reaches_start(edges, start, start, &mut visited, &mut path) {
        proof {
            assert(path@.skip(0) =~= path@);
            let w = seq![start] + path@;
            let q = w.map_values(|x: usize| x as int);
            assert forall|i: int| 0 <= i < q.len() - 1 implies #[trigger] edge(edges@, q[i], q[i + 1]) by {
                assert(edge(edges@, w[i] as int, w[i + 1] as int));
            }
            assert(is_walk(edges@, q));
            assert(q[0] == start as int);
            assert(q.last() == w.last() as int);
        }
        Some(path)
    } else {
        proof {
            if reaches_spec(edges@, start as int, start as int) {
                let p = choose|p: Seq<int>|
                    p.len() >= 2 && #[trigger] is_walk(edges@, p) && p[0] == start as int && p.last()
                        == start as int;
                lemma_no_return(edges@, visited@, start as int, p);
            }
        }
        None
    }
}

/// A composite of the reference graph: its package and its name.
#[derive(Debug, PartialEq, Eq)]
pub struct CompositeNode {
    pub package: String,
    pub name: String,
}

/// A composite declared by the checked package: its node, and the file and
/// name range of its declaration.
#[derive(Debug, Clone, Copy, PartialEq, Eq, Structural)]
pub struct RecursionStart {
    pub node: usize,
    pub file: usize,
    pub range: TextRange,
}

/// TYPL-206 at every start that reaches itself, in order.
pub open spec fn recursion_diags(starts: Seq<RecursionStart>, edges: Seq<Vec<usize>>, n: int) -> Seq<SDiag>
    decreases n,
{
    if n <= 0 {
        Seq::empty()
    } else {
        let s = starts[n - 1];
        recursion_diags(starts, edges, n - 1) + if reaches_spec(edges, s.node as int, s.node as int) {
            seq![(DiagCode::TYPL_206, Severity::Error, s.file, s.range)]
        } else {
            Seq::empty()
        }
    }
}

/// How a composite is named in a cycle: bare in the checked package,
/// `package.name` elsewhere.
fn cycle_name(node: &CompositeNode, package_name: &str) -> (r: String)
    ensures
        r@ == if node.package@ == package_name@ {
            node.name@
        } else {
            node.package@ + "."@ + node.name@
        },
{
    if str_eq(node.package.as_str(), package_name) {
        node.name.clone()
    } else {
        let mut text = node.package.clone();
        text.append(".");
        text.append(node.name.as_str());
        text
    }
}

/// Reports TYPL-206 for every composite of the checked package that reaches
/// itself through composite references ([`recursion_diags`]); the message
/// names the cycle found, `` `S` -> `T` -> `S` ``.
pub fn check_recursion(
    nodes: &[CompositeNode],
    edges: &[Vec<usize>],
    package_name: &str,
    starts: &[RecursionStart],
) -> (r: Vec<Diagnostic>)
    requires
        graph_wf(edges@),
        nodes.len() == edges.len(),
        forall|i: int| 0 <= i < starts.len() ==> #[trigger] starts@[i].node < edges.len(),
    ensures
        diags_view(r@) == recursion_diags(starts@, edges@, starts.len() as int),
{
    let mut out: Vec<Diagnostic> = Vec::new();
    let mut i: usize = 0;
    while i < starts.len()
        invariant
            graph_wf(edges@),
            nodes.len() == edges.len(),
            forall|k: int| 0 <= k < starts.len() ==> #[trigger] starts@[k].node < edges.len(),
            i <= starts.len(),
            diags_view(out@) == recursion_diags(starts@, edges@, i as int),
        decreases starts.len() - i,
    {
        let s = starts[i];
        assert(starts@[i as int].node < edges.len());
        let ghost before = diags_view(out@);
        if let Some(cycle) = composite_cycle(edges, s.node) {
            proof {
                let w = seq![s.node] + cycle@;
                assert forall|q: int| 0 <= q < cycle.len() implies #[trigger] cycle@[q] < nodes.len() by {
                    assert(edge(edges@, w[q] as int, w[q + 1] as int));
                    let a = w[q] as int;
                    let j = choose|j: int| 0 <= j < edges@[a]@.len() && edges@[a]@[j] == w[q + 1] as int;
                    assert(edges@[a]@[j] < edges.len());
                }
            }
            let mut message = String::from_str("recursive composite reference: `");
            message.append(nodes[s.node].name.as_str());
            let mut k: usize = 0;
            while k < cycle.len()
                invariant
                    k <= cycle.len(),
                    nodes.len() == edges.len(),
                    forall|q: int| 0 <= q < cycle.len() ==> #[trigger] cycle@[q] < nodes.len(),
                decreases cycle.len() - k,
            {
                message.append("` -> `");
                message.append(cycle_name(&nodes[cycle[k]], package_name).as_str());
                k = k + 1;
            }
            message.append("`");
            out.push(
                Diagnostic { code: DiagCode::TYPL_206, severity: Severity::Error, message, file: s.file, range: s.range },
            );
            assert(diags_view(out@) =~= before.push((DiagCode::TYPL_206, Severity::Error, s.file, s.range)));
        }
        i = i + 1;
    }
    out
}

proof fn lemma_walk_concat(edges: Seq<Vec<usize>>, p: Seq<int>, q: Seq<int>)
    requires
        is_walk(edges, p),
        is_walk(edges, q),
        q.len() >= 2,
        p.last() == q[0],
    ensures
        is_walk(edges, p + q.skip(1)),
        (p + q.skip(1))[0] == p[0],
        (p + q.skip(1)).last() == q.last(),
        (p + q.skip(1)).len() >= p.len() + 1,
{
    let w = p + q.skip(1);
    assert forall|i: int| 0 <= i < w.len() - 1 implies #[trigger] edge(edges, w[i], w[i + 1]) by {
        if i < p.len() - 1 {
            assert(w[i] == p[i] && w[i + 1] == p[i + 1]);
            assert(edge(edges, p[i], p[i + 1]));
        } else {
            let k = i - (p.len() - 1);
            assert(w[i] == q[k] && w[i + 1] == q[k + 1]);
            assert(edge(edges, q[k], q[k + 1]));
        }
    }
}

/// Recursion is reported for every composite on a cycle, not only for the
/// one the cycle was found from: when two composites reach each other, each
/// reaches itself.
pub proof fn law_every_composite_on_a_cycle_recurses(edges: Seq<Vec<usize>>, a: int, b: int)
    requires
        reaches_spec(edges, a, b),
        reaches_spec(edges, b, a),
    ensures
        reaches_spec(edges, a, a),
        reaches_spec(edges, b, b),
{
    let p = choose|p: Seq<int>| p.len() >= 2 && #[trigger] is_walk(edges, p) && p[0] == a && p.last() == b;
    let q = choose|q: Seq<int>| q.len() >= 2 && #[trigger] is_walk(edges, q) && q[0] == b && q.last() == a;
    lemma_walk_concat(edges, p, q);
    lemma_walk_concat(edges, q, p);
    let x = p + q.skip(1);
    let y = q + p.skip(1);
    assert(x.len() >= 2 && is_walk(edges, x) && x[0] == a && x.last() == a);
    assert(y.len() >= 2 && is_walk(edges, y) && y[0] == b && y.last() == b);
}

} // verus!
