//! Constraint analysis: which names participate in a constraint chain.
//!
//! The constraint operator is bidirectional, so the names that occur
//! together in a constraint form a clique of an undirected graph, and a
//! name participates in a constraint chain exactly when it reaches
//! another name of that graph. A node with no edges has an empty
//! neighborhood, which the side-effect analysis distinguishes from a
//! node that reaches itself through an edge.

use vstd::prelude::*;

use crate::bitset::{bitset_new, bitset_or};
use crate::graph::{reaches, Graph, lemma_reaches_symmetric, lemma_reaches_trans, reach_from};
use crate::ir::{
    add_stmt_reads, lemma_stmt_reads_in_range, stmt_is_constraint, stmt_reads, Cfg, Statement,
};
use crate::scan::{lemma_scan_block, lemma_scan_step, scan_full, scan_upto, stmt_at};

verus! {

/// The statement is a constraint reading both `u` and `v`.
pub open spec fn constraint_pred(u: int, v: int) -> spec_fn(Statement) -> bool {
    |st: Statement|
        stmt_is_constraint(st) && stmt_reads(st).contains(u) && stmt_reads(st).contains(v) && u
            != v
}

/// The statement is a constraint reading `v`.
pub open spec fn constrained_pred(v: int) -> spec_fn(Statement) -> bool {
    |st: Statement| stmt_is_constraint(st) && stmt_reads(st).contains(v)
}

/// The undirected constraint graph: `u` and `v` occur together in some
/// constraint.
pub open spec fn cfg_constraint_edge(cfg: Cfg, u: int, v: int) -> bool {
    scan_full(cfg, constraint_pred(u, v))
}

/// `v` occurs in at least one constraint.
pub open spec fn cfg_constrained(cfg: Cfg, v: int) -> bool {
    scan_full(cfg, constrained_pred(v))
}

/// The constraint graph is symmetric by construction.
pub proof fn lemma_cfg_constraint_edge_symmetric(cfg: Cfg)
    ensures
        forall|u: int, v: int| cfg_constraint_edge(cfg, u, v) == cfg_constraint_edge(cfg, v, u),
{
    assert forall|u: int, v: int|
        cfg_constraint_edge(cfg, u, v) == cfg_constraint_edge(cfg, v, u) by {
        if cfg_constraint_edge(cfg, u, v) {
            let (b, s) = choose|b: int, s: int|
                crate::scan::pos_valid(cfg, b, s) && crate::scan::pos_before(
                    b,
                    s,
                    cfg.blocks@.len() as int,
                    0,
                ) && constraint_pred(u, v)(#[trigger] stmt_at(cfg, b, s));
            assert(constraint_pred(v, u)(stmt_at(cfg, b, s)));
        }
        if cfg_constraint_edge(cfg, v, u) {
            let (b, s) = choose|b: int, s: int|
                crate::scan::pos_valid(cfg, b, s) && crate::scan::pos_before(
                    b,
                    s,
                    cfg.blocks@.len() as int,
                    0,
                ) && constraint_pred(v, u)(#[trigger] stmt_at(cfg, b, s));
            assert(constraint_pred(u, v)(stmt_at(cfg, b, s)));
        }
    }
}

/// The result of the constraint analysis: the undirected constraint
/// graph and the set of names occurring in some constraint.
pub struct ConstraintAnalysis {
    pub graph: Graph,
    pub occurs: Vec<bool>,
}

impl ConstraintAnalysis {
    /// The analysis describes `cfg`.
    pub open spec fn matches(self, cfg: Cfg) -> bool {
        &&& self.graph.wf()
        &&& self.graph.n() == cfg.spec_n_vars()
        &&& forall|u: int, v: int| self.graph.edge(u, v) == cfg_constraint_edge(cfg, u, v)
        &&& self.occurs@.len() == cfg.spec_n_vars()
        &&& forall|v: int| 0 <= v < self.occurs@.len() ==> (self.occurs@[v] == cfg_constrained(
            cfg,
            v,
        ))
    }

    /// Every name that occurs in at least one constraint.
    pub fn constrained_variables(&self) -> (r: &Vec<bool>)
        ensures
            r@ == self.occurs@,
    {
        &self.occurs
    }

    /// The direct constraint neighbors of `v`.
    pub fn single_step_constraint(&self, v: usize) -> (r: Vec<bool>)
        requires
            self.graph.wf(),
            v < self.graph.n(),
        ensures
            r@.len() == self.graph.n(),
            forall|w: int| 0 <= w < r@.len() ==> (r@[w] == self.graph.edge(v as int, w)),
    {
        let n = self.graph.adj.len();
        let mut out = bitset_new(n);
        let row = &self.graph.adj[v];
        let mut w: usize = 0;
        while w < n
            invariant
                self.graph.wf(),
                v < n,
                n == self.graph.n(),
                row@ == self.graph.adj@[v as int]@,
                w <= n,
                out@.len() == n,
                forall|k: int| 0 <= k < w ==> (out@[k] == self.graph.edge(v as int, k)),
                forall|k: int| w <= k < n ==> !out@[k],
            decreases n - w,
        {
            if row[w] {
                out[w] = true;
            }
            w = w + 1;
        }
        out
    }

    /// The transitive neighborhood of `v` under the symmetric relation:
    /// empty exactly when `v` has no edges at all.
    pub fn multi_step_constraint(&self, v: usize) -> (r: Vec<bool>)
        requires
            self.graph.wf(),
            v < self.graph.n(),
        ensures
            r@.len() == self.graph.n(),
            forall|w: int| 0 <= w < r@.len() ==> (r@[w] == reaches(self.graph, v as int, w)),
    {
        reach_from(&self.graph, v)
    }
}

/// Constraint reachability is symmetric and transitive: a chain can be
/// walked from either end, and two chains sharing a name are one chain.
pub proof fn lemma_constraint_reachability(ca: ConstraintAnalysis, cfg: Cfg)
    requires
        ca.matches(cfg),
    ensures
        forall|u: int, v: int| reaches(ca.graph, u, v) == reaches(ca.graph, v, u),
        forall|u: int, v: int, w: int|
            reaches(ca.graph, u, v) && reaches(ca.graph, v, w) ==> reaches(ca.graph, u, w),
{
    lemma_cfg_constraint_edge_symmetric(cfg);
    assert forall|a: int, b: int| ca.graph.edge(a, b) == ca.graph.edge(b, a) by {
        assert(ca.graph.edge(a, b) == cfg_constraint_edge(cfg, a, b));
        assert(ca.graph.edge(b, a) == cfg_constraint_edge(cfg, b, a));
        assert(cfg_constraint_edge(cfg, a, b) == cfg_constraint_edge(cfg, b, a));
    }
    lemma_reaches_symmetric(ca.graph);
    assert forall|u: int, v: int, w: int|
        reaches(ca.graph, u, v) && reaches(ca.graph, v, w) implies reaches(ca.graph, u, w) by {
        lemma_reaches_trans(ca.graph, u, v, w);
    }
}

/// Builds the constraint graph and occurrence set of `cfg`.
pub fn run_constraint_analysis(cfg: &Cfg) -> (r: ConstraintAnalysis)
    requires
        cfg.wf(),
    ensures
        r.matches(*cfg),
{
    let n = cfg.n_vars();
    let nb = cfg.blocks.len();
    let mut g = Graph::new(n);
    let mut occ = bitset_new(n);

    let mut bi: usize = 0;
    while bi < nb
        invariant
            cfg.wf(),
            n == cfg.spec_n_vars(),
            nb == cfg.blocks@.len(),
            bi <= nb,
            g.wf(),
            g.n() == n,
            occ@.len() == n,
            forall|u: int, v: int|
                g.edge(u, v) == scan_upto(*cfg, bi as int, 0, constraint_pred(u, v)),
            forall|v: int|
                0 <= v < n ==> (occ@[v] == scan_upto(*cfg, bi as int, 0, constrained_pred(v))),
        decreases nb - bi,
    {
        let ns = cfg.blocks[bi].stmts.len();
        let mut si: usize = 0;
        while si < ns
            invariant
                cfg.wf(),
                n == cfg.spec_n_vars(),
                nb == cfg.blocks@.len(),
                bi < nb,
                ns == cfg.blocks@[bi as int].stmts@.len(),
                si <= ns,
                g.wf(),
                g.n() == n,
                occ@.len() == n,
                forall|u: int, v: int|
                    g.edge(u, v) == scan_upto(*cfg, bi as int, si as int, constraint_pred(u, v)),
                forall|v: int|
                    0 <= v < n ==> (occ@[v] == scan_upto(
                        *cfg,
                        bi as int,
                        si as int,
                        constrained_pred(v),
                    )),
            decreases ns - si,
        {
            let st = &cfg.blocks[bi].stmts[si];
            proof {
                assert(*st == stmt_at(*cfg, bi as int, si as int));
                assert(crate::ir::wf_stmt(*st, n as int));
            }
            let is_c = matches!(st, Statement::ConstraintEquality { .. });
            if is_c {
                proof {
                    lemma_stmt_reads_in_range(*st, n as int);
                }
                let reads = add_stmt_reads(st, bitset_new(n));
                let mut u: usize = 0;
                while u < n
                    invariant
                        cfg.wf(),
                        n == cfg.spec_n_vars(),
                        bi < nb,
                        nb == cfg.blocks@.len(),
                        si < ns,
                        ns == cfg.blocks@[bi as int].stmts@.len(),
                        *st == stmt_at(*cfg, bi as int, si as int),
                        stmt_is_constraint(*st),
                        u <= n,
                        reads@.len() == n,
                        forall|a: int| 0 <= a < n ==> (reads@[a] == stmt_reads(*st).contains(a)),
                        g.wf(),
                        g.n() == n,
                        forall|a: int, c: int|
                            g.edge(a, c) == (scan_upto(
                                *cfg,
                                bi as int,
                                si as int,
                                constraint_pred(a, c),
                            ) || (0 <= a < u && stmt_reads(*st).contains(a) && stmt_reads(
                                *st,
                            ).contains(c) && a != c && 0 <= c < n)),
                    decreases n - u,
                {
                    if reads[u] {
                        let mut v: usize = 0;
                        while v < n
                            invariant
                                cfg.wf(),
                                n == cfg.spec_n_vars(),
                                bi < nb,
                                nb == cfg.blocks@.len(),
                                si < ns,
                                ns == cfg.blocks@[bi as int].stmts@.len(),
                                *st == stmt_at(*cfg, bi as int, si as int),
                                stmt_is_constraint(*st),
                                u < n,
                                v <= n,
                                reads@.len() == n,
                                reads@[u as int],
                                stmt_reads(*st).contains(u as int),
                                forall|a: int|
                                    0 <= a < n ==> (reads@[a] == stmt_reads(*st).contains(a)),
                                g.wf(),
                                g.n() == n,
                                forall|a: int, c: int|
                                    g.edge(a, c) == (scan_upto(
                                        *cfg,
                                        bi as int,
                                        si as int,
                                        constraint_pred(a, c),
                                    ) || (0 <= a < u && stmt_reads(*st).contains(a)
                                        && stmt_reads(*st).contains(c) && a != c && 0 <= c < n)
                                        || (a == u as int && stmt_reads(*st).contains(a)
                                        && stmt_reads(*st).contains(c) && a != c && 0 <= c
                                        < v)),
                            decreases n - v,
                        {
                            if reads[v] && v != u {
                                g.add_edge(u, v);
                            }
                            v = v + 1;
                        }
                    }
                    proof {
                        assert forall|a: int, c: int|
                            g.edge(a, c) == (scan_upto(
                                *cfg,
                                bi as int,
                                si as int,
                                constraint_pred(a, c),
                            ) || (0 <= a < u + 1 && stmt_reads(*st).contains(a) && stmt_reads(
                                *st,
                            ).contains(c) && a != c && 0 <= c < n)) by {
                            if !reads@[u as int] {
                                assert(!stmt_reads(*st).contains(u as int));
                            }
                        }
                    }
                    u = u + 1;
                }
                let ghost occ0 = occ@;
                occ = bitset_or(occ, &reads);
                proof {
                    assert forall|a: int, c: int|
                        g.edge(a, c) == scan_upto(
                            *cfg,
                            bi as int,
                            si as int + 1,
                            constraint_pred(a, c),
                        ) by {
                        lemma_scan_step(*cfg, bi as int, si as int, constraint_pred(a, c));
                        if constraint_pred(a, c)(stmt_at(*cfg, bi as int, si as int)) {
                            lemma_stmt_reads_in_range(*st, n as int);
                        }
                    }
                    assert forall|v: int|
                        0 <= v < n implies (occ@[v] == scan_upto(
                        *cfg,
                        bi as int,
                        si as int + 1,
                        constrained_pred(v),
                    )) by {
                        lemma_scan_step(*cfg, bi as int, si as int, constrained_pred(v));
                        assert(occ@[v] == (occ0[v] || reads@[v]));
                    }
                }
            } else {
                proof {
                    assert forall|a: int, c: int|
                        g.edge(a, c) == scan_upto(
                            *cfg,
                            bi as int,
                            si as int + 1,
                            constraint_pred(a, c),
                        ) by {
                        lemma_scan_step(*cfg, bi as int, si as int, constraint_pred(a, c));
                    }
                    assert forall|v: int|
                        0 <= v < n implies (occ@[v] == scan_upto(
                        *cfg,
                        bi as int,
                        si as int + 1,
                        constrained_pred(v),
                    )) by {
                        lemma_scan_step(*cfg, bi as int, si as int, constrained_pred(v));
                    }
                }
            }
            si = si + 1;
        }
        proof {
            assert forall|u: int, v: int|
                scan_upto(*cfg, bi as int + 1, 0, constraint_pred(u, v)) == scan_upto(
                    *cfg,
                    bi as int,
                    ns as int,
                    constraint_pred(u, v),
                ) by {
                lemma_scan_block(*cfg, bi as int, constraint_pred(u, v));
            }
            assert forall|v: int|
                scan_upto(*cfg, bi as int + 1, 0, constrained_pred(v)) == scan_upto(
                    *cfg,
                    bi as int,
                    ns as int,
                    constrained_pred(v),
                ) by {
                lemma_scan_block(*cfg, bi as int, constrained_pred(v));
            }
        }
        bi = bi + 1;
    }
    ConstraintAnalysis { graph: g, occurs: occ }
}

} // verus!
