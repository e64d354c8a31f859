//! One pass over every statement of a control-flow graph.
//!
//! The analyses all ask the same kind of question: does some statement of
//! the graph satisfy a predicate. `scan_upto` states the answer for the
//! statements before a position, so that a loop walking the blocks can
//! carry it as its invariant.

use vstd::prelude::*;

use crate::ir::{Cfg, Statement};

verus! {

/// The statement at block `b`, index `s`.
pub open spec fn stmt_at(cfg: Cfg, b: int, s: int) -> Statement {
    cfg.blocks@[b].stmts@[s]
}

pub open spec fn pos_valid(cfg: Cfg, b: int, s: int) -> bool {
    0 <= b < cfg.blocks@.len() && 0 <= s < cfg.blocks@[b].stmts@.len()
}

/// Position `(b, s)` lies before the bound `(bb, sb)` in walk order.
pub open spec fn pos_before(b: int, s: int, bb: int, sb: int) -> bool {
    b < bb || (b == bb && s < sb)
}

/// Some statement before position `(bb, sb)` satisfies `f`.
pub open spec fn scan_upto(cfg: Cfg, bb: int, sb: int, f: spec_fn(Statement) -> bool) -> bool {
    exists|b: int, s: int|
        pos_valid(cfg, b, s) && pos_before(b, s, bb, sb) && f(#[trigger] stmt_at(cfg, b, s))
}

/// Some statement of the graph satisfies `f`.
pub open spec fn scan_full(cfg: Cfg, f: spec_fn(Statement) -> bool) -> bool {
    scan_upto(cfg, cfg.blocks@.len() as int, 0, f)
}

pub proof fn lemma_scan_none(cfg: Cfg, f: spec_fn(Statement) -> bool)
    ensures
        !scan_upto(cfg, 0, 0, f),
{
}

pub proof fn lemma_scan_step(cfg: Cfg, bb: int, sb: int, f: spec_fn(Statement) -> bool)
    requires
        pos_valid(cfg, bb, sb),
    ensures
        scan_upto(cfg, bb, sb + 1, f) == (scan_upto(cfg, bb, sb, f) || f(stmt_at(cfg, bb, sb))),
{
    if scan_upto(cfg, bb, sb + 1, f) {
        let (b, s) = choose|b: int, s: int|
            pos_valid(cfg, b, s) && pos_before(b, s, bb, sb + 1) && f(#[trigger] stmt_at(cfg, b, s));
        if b == bb && s == sb {
            assert(f(stmt_at(cfg, bb, sb)));
        } else {
            assert(pos_before(b, s, bb, sb));
            assert(scan_upto(cfg, bb, sb, f));
        }
    }
    if scan_upto(cfg, bb, sb, f) {
        let (b, s) = choose|b: int, s: int|
            pos_valid(cfg, b, s) && pos_before(b, s, bb, sb) && f(#[trigger] stmt_at(cfg, b, s));
        assert(pos_before(b, s, bb, sb + 1));
        assert(scan_upto(cfg, bb, sb + 1, f));
    }
    if f(stmt_at(cfg, bb, sb)) {
        assert(pos_before(bb, sb, bb, sb + 1));
        assert(scan_upto(cfg, bb, sb + 1, f));
    }
}

pub proof fn lemma_scan_block(cfg: Cfg, bb: int, f: spec_fn(Statement) -> bool)
    requires
        0 <= bb < cfg.blocks@.len(),
    ensures
        scan_upto(cfg, bb + 1, 0, f) == scan_upto(cfg, bb, cfg.blocks@[bb].stmts@.len() as int, f),
{
    let sl = cfg.blocks@[bb].stmts@.len() as int;
    if scan_upto(cfg, bb + 1, 0, f) {
        let (b, s) = choose|b: int, s: int|
            pos_valid(cfg, b, s) && pos_before(b, s, bb + 1, 0) && f(#[trigger] stmt_at(cfg, b, s));
        assert(b <= bb);
        assert(pos_before(b, s, bb, sl));
        assert(scan_upto(cfg, bb, sl, f));
    }
    if scan_upto(cfg, bb, sl, f) {
        let (b, s) = choose|b: int, s: int|
            pos_valid(cfg, b, s) && pos_before(b, s, bb, sl) && f(#[trigger] stmt_at(cfg, b, s));
        assert(pos_before(b, s, bb + 1, 0));
        assert(scan_upto(cfg, bb + 1, 0, f));
    }
}

} // verus!
