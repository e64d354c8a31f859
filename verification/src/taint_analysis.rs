//! Taint analysis: explicit data flow between definitions.
//!
//! An edge `u -> v` of the taint graph says that the statement defining
//! `v` reads `u`. Control-flow conditions do not taint the assignments
//! inside their branches; a branch condition is promoted to a sink by the
//! side-effect analysis instead.

use vstd::prelude::*;

use crate::bitset::bitset_intersects;
use crate::bitset::bitset_new;
use crate::graph::{reaches, Graph, reach_from};
use crate::ir::{
    add_stmt_reads, stmt_def, stmt_reads, stmt_taint_edge, stmt_target, BasicBlock, Cfg,
    Statement, VariableUse, lemma_stmt_reads_in_range,
};
use crate::scan::{lemma_scan_block, lemma_scan_step, scan_full, scan_upto, stmt_at};

verus! {

/// The predicate a taint edge scan looks for.
pub open spec fn taint_pred(u: int, v: int) -> spec_fn(Statement) -> bool {
    |st: Statement| stmt_taint_edge(st, u, v)
}

/// The taint graph of a control-flow graph: some statement taints `v`
/// with `u`.
pub open spec fn cfg_taint_edge(cfg: Cfg, u: int, v: int) -> bool {
    scan_full(cfg, taint_pred(u, v))
}

/// The definitions a block contributes, up to statement index `s`.
pub open spec fn block_defs(blk: BasicBlock, s: int) -> Seq<VariableUse>
    decreases s,
{
    if s <= 0 {
        Seq::empty()
    } else {
        block_defs(blk, s - 1) + match stmt_def(blk.stmts@[s - 1]) {
            Some(d) => seq![d],
            None => Seq::empty(),
        }
    }
}

/// The definitions of the blocks before index `b`, in walk order.
pub open spec fn cfg_defs_upto(cfg: Cfg, b: int) -> Seq<VariableUse>
    decreases b,
{
    if b <= 0 {
        Seq::empty()
    } else {
        cfg_defs_upto(cfg, b - 1) + block_defs(
            cfg.blocks@[b - 1],
            cfg.blocks@[b - 1].stmts@.len() as int,
        )
    }
}

/// Every definition site: the parameters of the construct, then the
/// assignment and φ targets in walk order.
pub open spec fn cfg_definitions(cfg: Cfg) -> Seq<VariableUse> {
    cfg.parameters@ + cfg_defs_upto(cfg, cfg.blocks@.len() as int)
}

/// The transitive taint closure. It is reflexive: every name trivially
/// feeds itself, so a name that is itself a sink always taints a sink.
pub open spec fn multi_step_taint_spec(g: Graph, x: int, w: int) -> bool {
    reaches(g, x, w) || w == x
}

/// The result of the taint analysis: the taint graph and every
/// definition site.
pub struct TaintAnalysis {
    pub graph: Graph,
    pub defs: Vec<VariableUse>,
}

impl TaintAnalysis {
    /// The analysis describes `cfg`.
    pub open spec fn matches(self, cfg: Cfg) -> bool {
        &&& self.graph.wf()
        &&& self.graph.n() == cfg.spec_n_vars()
        &&& forall|u: int, v: int| self.graph.edge(u, v) == cfg_taint_edge(cfg, u, v)
        &&& self.defs@ == cfg_definitions(cfg)
    }

    /// Every SSA definition site.
    pub fn definitions(&self) -> (r: &Vec<VariableUse>)
        ensures
            r@ == self.defs@,
    {
        &self.defs
    }

    /// The direct taint successors of `v`.
    pub fn single_step_taint(&self, v: usize) -> (r: Vec<bool>)
        requires
            self.graph.wf(),
            v < self.graph.n(),
        ensures
            r@.len() == self.graph.n(),
            forall|w: int| 0 <= w < r@.len() ==> (r@[w] == self.graph.edge(v as int, w)),
    {
        let n = self.graph.adj.len();
        let mut out = bitset_new(n);
        let row = &self.graph.adj[v];
        let mut w: usize = 0;
        while w < n
            invariant
                self.graph.wf(),
                v < n,
                n == self.graph.n(),
                row@ == self.graph.adj@[v as int]@,
                w <= n,
                out@.len() == n,
                forall|k: int| 0 <= k < w ==> (out@[k] == self.graph.edge(v as int, k)),
                forall|k: int| w <= k < n ==> !out@[k],
            decreases n - w,
        {
            if row[w] {
                out[w] = true;
            }
            w = w + 1;
        }
        out
    }

    /// The transitive taint closure of `v`, the source itself included.
    pub fn multi_step_taint(&self, v: usize) -> (r: Vec<bool>)
        requires
            self.graph.wf(),
            v < self.graph.n(),
        ensures
            r@.len() == self.graph.n(),
            forall|w: int|
                0 <= w < r@.len() ==> (r@[w] == multi_step_taint_spec(self.graph, v as int, w)),
    {
        let mut out = reach_from(&self.graph, v);
        let ghost mid = out@;
        out[v] = true;
        proof {
            assert forall|w: int|
                0 <= w < out@.len() implies (out@[w] == multi_step_taint_spec(
                self.graph,
                v as int,
                w,
            )) by {
                if w != v as int {
                    assert(out@[w] == mid[w]);
                }
            }
        }
        out
    }

    /// Whether the taint closure of `v` meets the marked set: `v` taints
    /// one of its members.
    pub fn taints_any(&self, v: usize, set: &Vec<bool>) -> (r: bool)
        requires
            self.graph.wf(),
            v < self.graph.n(),
            set@.len() == self.graph.n(),
        ensures
            r == exists|w: int|
                0 <= w < self.graph.n() && multi_step_taint_spec(self.graph, v as int, w)
                    && set@[w],
    {
        let m = self.multi_step_taint(v);
        let r = bitset_intersects(&m, set);
        proof {
            if r {
                let w = choose|w: int| 0 <= w < m@.len() && m@[w] && set@[w];
                assert(multi_step_taint_spec(self.graph, v as int, w) && set@[w]);
            }
            if exists|w: int|
                0 <= w < self.graph.n() && multi_step_taint_spec(self.graph, v as int, w)
                    && set@[w] {
                let w = choose|w: int|
                    0 <= w < self.graph.n() && multi_step_taint_spec(self.graph, v as int, w)
                        && set@[w];
                assert(m@[w] && set@[w]);
            }
        }
        r
    }
}

/// The taint target of a statement, as executable code.
fn taint_target(st: &Statement) -> (r: Option<usize>)
    ensures
        match r {
            Some(t) => stmt_target(*st) == Some(t as int),
            None => stmt_target(*st) is None,
        },
{
    match st {
        Statement::Declaration { decl } => Some(decl.var),
        Statement::Substitution { var, .. } => Some(*var),
        Statement::Phi { var, .. } => Some(*var),
        _ => None,
    }
}

/// Builds the taint graph and the definition list of `cfg`.
pub fn run_taint_analysis(cfg: &Cfg) -> (r: TaintAnalysis)
    requires
        cfg.wf(),
    ensures
        r.matches(*cfg),
{
    let n = cfg.n_vars();
    let nb = cfg.blocks.len();
    let mut g = Graph::new(n);
    let mut defs: Vec<VariableUse> = Vec::new();

    let np = cfg.parameters.len();
    let mut i: usize = 0;
    while i < np
        invariant
            np == cfg.parameters@.len(),
            i <= np,
            defs@ == cfg.parameters@.take(i as int),
        decreases np - i,
    {
        defs.push(cfg.parameters[i]);
        proof {
            assert(defs@ =~= cfg.parameters@.take(i + 1));
        }
        i = i + 1;
    }
    proof {
        assert(cfg.parameters@.take(np as int) =~= cfg.parameters@);
        assert(defs@ + cfg_defs_upto(*cfg, 0) =~= cfg.parameters@);
    }

    let mut bi: usize = 0;
    while bi < nb
        invariant
            cfg.wf(),
            n == cfg.spec_n_vars(),
            nb == cfg.blocks@.len(),
            bi <= nb,
            g.wf(),
            g.n() == n,
            forall|u: int, v: int|
                g.edge(u, v) == scan_upto(*cfg, bi as int, 0, taint_pred(u, v)),
            defs@ == cfg.parameters@ + cfg_defs_upto(*cfg, bi as int),
        decreases nb - bi,
    {
        let ns = cfg.blocks[bi].stmts.len();
        let mut si: usize = 0;
        while si < ns
            invariant
                cfg.wf(),
                n == cfg.spec_n_vars(),
                nb == cfg.blocks@.len(),
                bi < nb,
                ns == cfg.blocks@[bi as int].stmts@.len(),
                si <= ns,
                g.wf(),
                g.n() == n,
                forall|u: int, v: int|
                    g.edge(u, v) == scan_upto(*cfg, bi as int, si as int, taint_pred(u, v)),
                defs@ == cfg.parameters@ + cfg_defs_upto(*cfg, bi as int) + block_defs(
                    cfg.blocks@[bi as int],
                    si as int,
                ),
            decreases ns - si,
        {
            let st = &cfg.blocks[bi].stmts[si];
            proof {
                assert(*st == stmt_at(*cfg, bi as int, si as int));
                assert(crate::ir::wf_stmt(*st, n as int));
            }
            let target = taint_target(st);
            match target {
                Some(t) => {
                    proof {
                        lemma_stmt_reads_in_range(*st, n as int);
                        assert(t < n);
                    }
                    let reads = add_stmt_reads(st, bitset_new(n));
                    let mut u: usize = 0;
                    while u < n
                        invariant
                            cfg.wf(),
                            n == cfg.spec_n_vars(),
                            bi < nb,
                            nb == cfg.blocks@.len(),
                            si < ns,
                            ns == cfg.blocks@[bi as int].stmts@.len(),
                            *st == stmt_at(*cfg, bi as int, si as int),
                            stmt_target(*st) == Some(t as int),
                            t < n,
                            u <= n,
                            reads@.len() == n,
                            forall|a: int|
                                0 <= a < n ==> (reads@[a] == stmt_reads(*st).contains(a)),
                            g.wf(),
                            g.n() == n,
                            forall|a: int, c: int|
                                g.edge(a, c) == (scan_upto(
                                    *cfg,
                                    bi as int,
                                    si as int,
                                    taint_pred(a, c),
                                ) || (0 <= a < u && stmt_reads(*st).contains(a) && c == t
                                    as int)),
                        decreases n - u,
                    {
                        if reads[u] {
                            g.add_edge(u, t);
                        }
                        proof {
                            assert forall|a: int, c: int|
                                g.edge(a, c) == (scan_upto(
                                    *cfg,
                                    bi as int,
                                    si as int,
                                    taint_pred(a, c),
                                ) || (0 <= a < u + 1 && stmt_reads(*st).contains(a) && c == t
                                    as int)) by {}
                        }
                        u = u + 1;
                    }
                    proof {
                        assert forall|a: int, c: int|
                            g.edge(a, c) == scan_upto(
                                *cfg,
                                bi as int,
                                si as int + 1,
                                taint_pred(a, c),
                            ) by {
                            lemma_scan_step(*cfg, bi as int, si as int, taint_pred(a, c));
                            if stmt_taint_edge(stmt_at(*cfg, bi as int, si as int), a, c) {
                                lemma_stmt_reads_in_range(*st, n as int);
                            }
                        }
                    }
                },
                None => {
                    proof {
                        assert forall|a: int, c: int|
                            g.edge(a, c) == scan_upto(
                                *cfg,
                                bi as int,
                                si as int + 1,
                                taint_pred(a, c),
                            ) by {
                            lemma_scan_step(*cfg, bi as int, si as int, taint_pred(a, c));
                        }
                    }
                },
            }
            match st {
                Statement::Substitution { var, meta, .. } => {
                    defs.push(VariableUse { var: *var, meta: *meta });
                },
                _ => {},
            }
            proof {
                let blk = cfg.blocks@[bi as int];
                assert(block_defs(blk, si as int + 1) == block_defs(blk, si as int) + (
                match stmt_def(blk.stmts@[si as int]) {
                    Some(d) => seq![d],
                    None => Seq::<VariableUse>::empty(),
                }));
                assert(defs@ =~= cfg.parameters@ + cfg_defs_upto(*cfg, bi as int) + block_defs(
                    blk,
                    si as int + 1,
                ));
            }
            si = si + 1;
        }
        proof {
            assert forall|u: int, v: int|
                scan_upto(*cfg, bi as int + 1, 0, taint_pred(u, v)) == scan_upto(
                    *cfg,
                    bi as int,
                    ns as int,
                    taint_pred(u, v),
                ) by {
                lemma_scan_block(*cfg, bi as int, taint_pred(u, v));
            }
            assert(cfg_defs_upto(*cfg, bi as int + 1) == cfg_defs_upto(*cfg, bi as int)
                + block_defs(cfg.blocks@[bi as int], cfg.blocks@[bi as int].stmts@.len() as int));
            assert(defs@ =~= cfg.parameters@ + cfg_defs_upto(*cfg, bi as int + 1));
        }
        bi = bi + 1;
    }
    TaintAnalysis { graph: g, defs }
}

} // verus!
