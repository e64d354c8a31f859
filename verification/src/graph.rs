//! Directed graphs over variable ids, with verified reachability.
//!
//! Both analyses need the same question answered: which nodes can be
//! reached from a given node through at least one edge. The closure is
//! computed by a worklist search whose result is proved equal to the
//! path-based reachability relation `reaches`.

use vstd::prelude::*;

use crate::bitset::{bitset_new, count_false, lemma_count_false_nonneg, lemma_count_false_update};

verus! {

/// A directed graph on nodes `0 .. n`, kept as an adjacency matrix.
pub struct Graph {
    pub adj: Vec<Vec<bool>>,
}

impl Graph {
    pub open spec fn n(self) -> int {
        self.adj@.len() as int
    }

    pub open spec fn wf(self) -> bool {
        forall|u: int| 0 <= u < self.n() ==> self.adj@[u]@.len() == self.n()
    }

    pub open spec fn edge(self, u: int, v: int) -> bool {
        0 <= u < self.n() && 0 <= v < self.n() && self.adj@[u]@[v]
    }

    /// The edgeless graph on `n` nodes.
    pub fn new(n: usize) -> (g: Graph)
        ensures
            g.wf(),
            g.n() == n,
            forall|u: int, v: int| !g.edge(u, v),
    {
        let mut adj: Vec<Vec<bool>> = Vec::new();
        let mut i: usize = 0;
        while i < n
            invariant
                i <= n,
                adj@.len() == i,
                forall|u: int| 0 <= u < i ==> adj@[u]@.len() == n,
                forall|u: int, v: int|
                    0 <= u < i && 0 <= v < n ==> !adj@[u]@[v],
            decreases n - i,
        {
            adj.push(bitset_new(n));
            i = i + 1;
        }
        Graph { adj }
    }

    /// Adds the edge `u -> v`.
    pub fn add_edge(&mut self, u: usize, v: usize)
        requires
            old(self).wf(),
            u < old(self).n(),
            v < old(self).n(),
        ensures
            final(self).wf(),
            final(self).n() == old(self).n(),
            forall|a: int, b: int|
                final(self).edge(a, b) == (old(self).edge(a, b) || (a == u as int && b
                    == v as int)),
    {
        self.adj[u][v] = true;
        proof {
            assert forall|a: int, b: int|
                self.edge(a, b) == (old(self).edge(a, b) || (a == u as int && b
                    == v as int)) by {
                if a == u as int {
                    assert(self.adj@[a]@ == old(self).adj@[a]@.update(v as int, true));
                } else if 0 <= a < self.n() {
                    assert(self.adj@[a]@ == old(self).adj@[a]@);
                }
            }
        }
    }

}

/// A path: at least one edge, each step along an edge of `g`.
pub open spec fn is_path(g: Graph, p: Seq<int>) -> bool {
    p.len() >= 2 && forall|k: int| 0 <= k < p.len() - 1 ==> g.edge(#[trigger] p[k], p[k + 1])
}

/// `v` can be reached from `u` through at least one edge.
pub open spec fn reaches(g: Graph, u: int, v: int) -> bool {
    exists|p: Seq<int>| is_path(g, p) && p.first() == u && p.last() == v
}

pub proof fn lemma_edge_reaches(g: Graph, u: int, v: int)
    requires
        g.edge(u, v),
    ensures
        reaches(g, u, v),
{
    let p = seq![u, v];
    assert(p.len() == 2);
    assert(p[0] == u && p[1] == v);
    assert(is_path(g, p));
    assert(p.first() == u && p.last() == v);
}

pub proof fn lemma_reaches_step(g: Graph, x: int, u: int, v: int)
    requires
        reaches(g, x, u),
        g.edge(u, v),
    ensures
        reaches(g, x, v),
{
    let p = choose|p: Seq<int>| is_path(g, p) && p.first() == x && p.last() == u;
    let q = p.push(v);
    assert forall|k: int| 0 <= k < q.len() - 1 implies #[trigger] g.edge(q[k], q[k + 1]) by {
        if k < p.len() - 1 {
            assert(q[k] == p[k] && q[k + 1] == p[k + 1]);
        } else {
            assert(q[k] == p.last() && q[k + 1] == v);
        }
    }
    assert(is_path(g, q));
    assert(q.first() == x && q.last() == v);
}

/// Reachability is transitive.
pub proof fn lemma_reaches_trans(g: Graph, u: int, v: int, w: int)
    requires
        reaches(g, u, v),
        reaches(g, v, w),
    ensures
        reaches(g, u, w),
{
    let p = choose|p: Seq<int>| is_path(g, p) && p.first() == u && p.last() == v;
    let q = choose|q: Seq<int>| is_path(g, q) && q.first() == v && q.last() == w;
    let r = p + q.drop_first();
    assert(r.len() == p.len() + q.len() - 1);
    assert forall|k: int| 0 <= k < r.len() - 1 implies #[trigger] g.edge(r[k], r[k + 1]) by {
        if k < p.len() - 1 {
            assert(r[k] == p[k] && r[k + 1] == p[k + 1]);
        } else if k == p.len() - 1 {
            assert(r[k] == p.last());
            assert(r[k + 1] == q.drop_first()[0]);
            assert(q.drop_first()[0] == q[1]);
            assert(g.edge(q[0], q[1]));
        } else {
            assert(r[k] == q.drop_first()[k - p.len()]);
            assert(r[k] == q[k - p.len() + 1]);
            assert(r[k + 1] == q[k - p.len() + 2]);
            assert(g.edge(q[k - p.len() + 1], q[k - p.len() + 2]));
        }
    }
    assert(is_path(g, r));
    assert(r.first() == u);
    assert(r.last() == q.drop_first().last());
    assert(r.last() == w);
}

/// Reachable nodes are nodes of the graph.
pub proof fn lemma_reaches_range(g: Graph, u: int, v: int)
    requires
        reaches(g, u, v),
    ensures
        0 <= u < g.n(),
        0 <= v < g.n(),
{
    let p = choose|p: Seq<int>| is_path(g, p) && p.first() == u && p.last() == v;
    assert(g.edge(p[0int], p[0int + 1]));
    let m = p.len() - 2;
    assert(g.edge(p[m], p[m + 1]));
    assert(p.last() == p[m + 1]);
}

/// Two graphs with the same edge relation have the same reachability.
pub proof fn lemma_reaches_congruent(g1: Graph, g2: Graph)
    requires
        forall|a: int, b: int| g1.edge(a, b) == g2.edge(a, b),
    ensures
        forall|u: int, v: int| reaches(g1, u, v) == reaches(g2, u, v),
{
    assert forall|u: int, v: int| reaches(g1, u, v) implies reaches(g2, u, v) by {
        let p = choose|p: Seq<int>| is_path(g1, p) && p.first() == u && p.last() == v;
        assert forall|k: int| 0 <= k < p.len() - 1 implies g2.edge(#[trigger] p[k], p[k + 1]) by {
            assert(g1.edge(p[k], p[k + 1]));
        }
        assert(is_path(g2, p));
    }
    assert forall|u: int, v: int| reaches(g2, u, v) implies reaches(g1, u, v) by {
        let p = choose|p: Seq<int>| is_path(g2, p) && p.first() == u && p.last() == v;
        assert forall|k: int| 0 <= k < p.len() - 1 implies g1.edge(#[trigger] p[k], p[k + 1]) by {
            assert(g2.edge(p[k], p[k + 1]));
        }
        assert(is_path(g1, p));
    }
}

/// Over a symmetric edge relation, reachability is symmetric: a path is
/// walked backwards edge by edge.
pub proof fn lemma_reaches_symmetric(g: Graph)
    requires
        forall|a: int, b: int| g.edge(a, b) == g.edge(b, a),
    ensures
        forall|u: int, v: int| reaches(g, u, v) == reaches(g, v, u),
{
    assert forall|u: int, v: int| reaches(g, u, v) implies reaches(g, v, u) by {
        let p = choose|p: Seq<int>| is_path(g, p) && p.first() == u && p.last() == v;
        let q = Seq::new(p.len(), |i: int| p[p.len() - 1 - i]);
        assert forall|k: int| 0 <= k < q.len() - 1 implies g.edge(#[trigger] q[k], q[k + 1]) by {
            assert(q[k] == p[p.len() - 1 - k]);
            assert(q[k + 1] == p[p.len() - 2 - k]);
            let m = p.len() - 2 - k;
            assert(g.edge(#[trigger] p[m], p[m + 1]));
        }
        assert(is_path(g, q));
        assert(q.first() == v && q.last() == u);
    }
}

/// A set that holds every successor of `x` and is closed under edges
/// holds everything reachable from `x`: induction over the path.
proof fn lemma_path_end_marked(g: Graph, marked: Seq<bool>, p: Seq<int>)
    requires
        marked.len() == g.n(),
        forall|w: int| g.edge(p.first(), w) ==> marked[w],
        forall|u: int, w: int| 0 <= u < g.n() && marked[u] && g.edge(u, w) ==> marked[w],
        is_path(g, p),
    ensures
        0 <= p.last() < g.n() && marked[p.last()],
    decreases p.len(),
{
    if p.len() == 2 {
        assert(g.edge(p[0int], p[0int + 1]));
        assert(p.last() == p[1]);
    } else {
        let p2 = p.drop_last();
        assert(p2.first() == p.first());
        assert forall|k: int| 0 <= k < p2.len() - 1 implies g.edge(#[trigger] p2[k], p2[k + 1]) by {
            assert(p2[k] == p[k]);
            assert(p2[k + 1] == p[k + 1]);
            assert(g.edge(p[k], p[k + 1]));
        }
        lemma_path_end_marked(g, marked, p2);
        let m = p.len() - 2;
        assert(g.edge(p[m], p[m + 1]));
        assert(p2.last() == p[m]);
        assert(p.last() == p[m + 1]);
    }
}

/// Whether `u` occurs in the worklist.
pub open spec fn in_q(q: Seq<usize>, u: int) -> bool {
    exists|k: int| 0 <= k < q.len() && q[k] as int == u
}

/// The nodes reachable from `x` through at least one edge, as a mark
/// vector: a worklist search of the closure.
pub fn reach_from(g: &Graph, x: usize) -> (r: Vec<bool>)
    requires
        g.wf(),
        x < g.n(),
    ensures
        r@.len() == g.n(),
        forall|v: int| 0 <= v < g.n() ==> (r@[v] == reaches(*g, x as int, v)),
{
    let n = g.adj.len();
    let mut marked = bitset_new(n);
    let mut queue: Vec<usize> = Vec::new();
    let mut remaining: usize = n;
    proof {
        lemma_count_false_all_false(marked@);
    }

    // Seed with the direct successors of `x`.
    let mut v: usize = 0;
    let row = &g.adj[x];
    while v < n
        invariant
            g.wf(),
            x < n,
            n == g.n(),
            row@ == g.adj@[x as int]@,
            v <= n,
            marked@.len() == n,
            remaining == count_false(marked@),
            forall|w: int| 0 <= w < n ==> (marked@[w] == (w < v && g.edge(x as int, w))),
            forall|k: int| 0 <= k < queue@.len() ==> queue@[k] < n,
            forall|k: int| 0 <= k < queue@.len() ==> marked@[queue@[k] as int],
            forall|u: int| 0 <= u < n && marked@[u] ==> in_q(queue@, u),
            forall|k1: int, k2: int|
                0 <= k1 < queue@.len() && 0 <= k2 < queue@.len() && k1 != k2 ==> queue@[k1]
                    != queue@[k2],
        decreases n - v,
    {
        if row[v] {
            proof {
                lemma_count_false_update(marked@, v as int);
                lemma_count_false_nonneg(marked@.update(v as int, true));
            }
            let ghost q0 = queue@;
            let ghost m0 = marked@;
            marked[v] = true;
            queue.push(v);
            remaining = remaining - 1;
            proof {
                assert(queue@ == q0.push(v));
                assert(!in_q(q0, v as int)) by {
                    if in_q(q0, v as int) {
                        let k = choose|k: int|
                            0 <= k < q0.len() && #[trigger] (q0[k] as int) == v as int;
                        assert(m0[q0[k] as int]);
                    }
                }
                assert forall|u: int| 0 <= u < n && marked@[u] implies in_q(queue@, u) by {
                    if u == v as int {
                        assert(queue@[q0.len() as int] as int == u);
                    } else {
                        assert(m0[u]);
                        assert(in_q(q0, u));
                        let k = choose|k: int|
                            0 <= k < q0.len() && #[trigger] (q0[k] as int) == u;
                        assert(queue@[k] as int == u);
                    }
                }
                assert forall|k1: int, k2: int|
                    0 <= k1 < queue@.len() && 0 <= k2 < queue@.len() && k1 != k2
                    implies queue@[k1] != queue@[k2] by {
                    if k1 < q0.len() && k2 < q0.len() {
                        assert(q0[k1] == queue@[k1] && q0[k2] == queue@[k2]);
                    } else if k1 == q0.len() {
                        assert(queue@[k2] == q0[k2]);
                        assert(queue@[k1] == v);
                        if queue@[k2] == v {
                            assert(q0[k2] as int == v as int);
                            assert(in_q(q0, v as int));
                        }
                    } else {
                        assert(queue@[k1] == q0[k1]);
                        assert(queue@[k2] == v);
                        if queue@[k1] == v {
                            assert(q0[k1] as int == v as int);
                            assert(in_q(q0, v as int));
                        }
                    }
                }
            }
        }
        v = v + 1;
    }

    proof {
        assert forall|u: int| 0 <= u < n && marked@[u] implies reaches(*g, x as int, u) by {
            lemma_edge_reaches(*g, x as int, u);
        }
    }

    // Saturate: take a node from the worklist, mark its successors.
    while queue.len() > 0
        invariant
            g.wf(),
            x < n,
            n == g.n(),
            marked@.len() == n,
            remaining == count_false(marked@),
            forall|k: int| 0 <= k < queue@.len() ==> queue@[k] < n,
            forall|k: int| 0 <= k < queue@.len() ==> marked@[queue@[k] as int],
            forall|k1: int, k2: int|
                0 <= k1 < queue@.len() && 0 <= k2 < queue@.len() && k1 != k2 ==> queue@[k1]
                    != queue@[k2],
            forall|w: int| g.edge(x as int, w) ==> marked@[w],
            forall|u: int| 0 <= u < n && marked@[u] ==> reaches(*g, x as int, u),
            forall|u: int, w: int|
                0 <= u < n && marked@[u] && !in_q(queue@, u) && g.edge(u, w) ==> marked@[w],
        decreases remaining, queue@.len(),
    {
        let ghost qpre = queue@;
        let u = queue.pop().unwrap();
        let qlen0 = queue.len();
        let rem0 = remaining;
        proof {
            assert(queue@ == qpre.drop_last());
            assert(u == qpre.last());
            assert(marked@[u as int]);
            assert(!in_q(queue@, u as int)) by {
                if in_q(queue@, u as int) {
                    let k = choose|k: int|
                        0 <= k < queue@.len() && #[trigger] (queue@[k] as int) == u as int;
                    assert(qpre[k] == qpre[qpre.len() - 1]);
                }
            }
            assert forall|y: int|
                0 <= y < n && marked@[y] && !in_q(queue@, y) && y != u as int
                implies !in_q(qpre, y) by {
                if in_q(qpre, y) {
                    let k = choose|k: int|
                        0 <= k < qpre.len() && #[trigger] (qpre[k] as int) == y;
                    assert(k == qpre.len() - 1 || queue@[k] as int == y);
                }
            }
        }
        let mut w: usize = 0;
        while w < n
            invariant
                g.wf(),
                x < n,
                n == g.n(),
                u < n,
                w <= n,
                qlen0 <= queue@.len(),
                marked@.len() == n,
                remaining == count_false(marked@),
                remaining <= rem0,
                queue@.len() == qlen0 + (rem0 - remaining),
                marked@[u as int],
                !in_q(queue@, u as int),
                reaches(*g, x as int, u as int),
                forall|k: int| 0 <= k < queue@.len() ==> queue@[k] < n,
                forall|k: int| 0 <= k < queue@.len() ==> marked@[queue@[k] as int],
                forall|k1: int, k2: int|
                    0 <= k1 < queue@.len() && 0 <= k2 < queue@.len() && k1 != k2
                        ==> queue@[k1] != queue@[k2],
                forall|y: int| g.edge(x as int, y) ==> marked@[y],
                forall|y: int| 0 <= y < n && marked@[y] ==> reaches(*g, x as int, y),
                forall|y: int, z: int|
                    0 <= y < n && marked@[y] && !in_q(queue@, y) && y != u as int && g.edge(
                        y,
                        z,
                    ) ==> marked@[z],
                forall|z: int| 0 <= z < w ==> (g.edge(u as int, z) ==> marked@[z]),
            decreases n - w,
        {
            let has = g.adj[u][w];
            if has && !marked[w] {
                proof {
                    lemma_count_false_update(marked@, w as int);
                    lemma_count_false_nonneg(marked@.update(w as int, true));
                    lemma_reaches_step(*g, x as int, u as int, w as int);
                }
                let ghost q0 = queue@;
                let ghost m0 = marked@;
                marked[w] = true;
                queue.push(w);
                remaining = remaining - 1;
                proof {
                    assert(queue@ == q0.push(w));
                    assert(!in_q(q0, w as int)) by {
                        if in_q(q0, w as int) {
                            let k = choose|k: int|
                                0 <= k < q0.len() && #[trigger] (q0[k] as int) == w as int;
                            assert(m0[q0[k] as int]);
                        }
                    }
                    assert(in_q(queue@, w as int)) by {
                        assert(queue@[q0.len() as int] as int == w as int);
                    }
                    assert(!in_q(queue@, u as int)) by {
                        if in_q(queue@, u as int) {
                            let k = choose|k: int|
                                0 <= k < queue@.len() && #[trigger] (queue@[k] as int) == u
                                    as int;
                            if k < q0.len() {
                                assert(q0[k] as int == u as int);
                            } else {
                                assert(queue@[k] == w);
                            }
                        }
                    }
                    assert forall|k1: int, k2: int|
                        0 <= k1 < queue@.len() && 0 <= k2 < queue@.len() && k1 != k2
                        implies queue@[k1] != queue@[k2] by {
                        if k1 < q0.len() && k2 < q0.len() {
                            assert(q0[k1] == queue@[k1] && q0[k2] == queue@[k2]);
                        } else if k1 == q0.len() {
                            assert(queue@[k1] == w && queue@[k2] == q0[k2]);
                            if queue@[k2] == w {
                                assert(q0[k2] as int == w as int);
                                assert(in_q(q0, w as int));
                            }
                        } else {
                            assert(queue@[k2] == w && queue@[k1] == q0[k1]);
                            if queue@[k1] == w {
                                assert(q0[k1] as int == w as int);
                                assert(in_q(q0, w as int));
                            }
                        }
                    }
                    assert forall|y: int, z: int|
                        0 <= y < n && marked@[y] && !in_q(queue@, y) && y != u as int
                            && g.edge(y, z) implies marked@[z] by {
                        assert(y != w as int);
                        assert(m0[y]);
                        assert(!in_q(q0, y)) by {
                            if in_q(q0, y) {
                                let k = choose|k: int|
                                    0 <= k < q0.len() && #[trigger] (q0[k] as int) == y;
                                assert(queue@[k] as int == y);
                            }
                        }
                        assert(m0[z] || z == w as int);
                    }
                }
            }
            w = w + 1;
        }
    }

    proof {
        assert forall|v2: int| 0 <= v2 < g.n() implies (marked@[v2] == reaches(
            *g,
            x as int,
            v2,
        )) by {
            if reaches(*g, x as int, v2) {
                let p = choose|p: Seq<int>|
                    is_path(*g, p) && p.first() == x as int && p.last() == v2;
                lemma_path_end_marked(*g, marked@, p);
            }
        }
    }
    marked
}

/// An all-false vector counts every index.
proof fn lemma_count_false_all_false(s: Seq<bool>)
    requires
        forall|i: int| 0 <= i < s.len() ==> !s[i],
    ensures
        count_false(s) == s.len(),
    decreases s,
{
    if s.len() > 0 {
        lemma_count_false_all_false(s.drop_last());
    }
}

} // verus!
