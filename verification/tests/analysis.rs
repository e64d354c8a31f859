use circomspect::ir::{
    BasicBlock, BinaryOp, Cfg, Declaration, Expression, Meta, Statement, VariableKind,
    VariableUse,
};
use circomspect::constraint_analysis::run_constraint_analysis;
use circomspect::report::ReportCode;
use circomspect::side_effect_analysis::{dimensions_to_string, run_side_effect_analysis};
use circomspect::side_effect_analysis::UnusedVariableWarning;
use circomspect::taint_analysis::run_taint_analysis;

fn m() -> Meta {
    Meta { file_id: Some(0), start: 0, end: 1 }
}

fn v(i: usize) -> Expression {
    Expression::Variable { var: i }
}

fn lit(x: u64) -> Expression {
    Expression::Literal { value: x }
}

fn bin(op: BinaryOp, a: Expression, b: Expression) -> Expression {
    Expression::Binary { op, lhs: Box::new(a), rhs: Box::new(b) }
}

fn at(base: Expression, index: Expression) -> Expression {
    Expression::Subscript { base: Box::new(base), index: Box::new(index) }
}

fn call(name: &str, args: Vec<Expression>) -> Expression {
    Expression::Call { name: name.to_string(), args }
}

fn access(base: Expression, field: &str) -> Expression {
    Expression::Access { base: Box::new(base), field: field.to_string() }
}

fn assign(var: usize, rhs: Expression) -> Statement {
    Statement::Substitution { var, access: vec![], rhs, meta: m() }
}

fn assign_at(var: usize, index: Expression, rhs: Expression) -> Statement {
    Statement::Substitution { var, access: vec![index], rhs, meta: m() }
}

fn phi(var: usize, args: Vec<usize>) -> Statement {
    Statement::Phi { var, args, meta: m() }
}

fn ceq(lhs: Expression, rhs: Expression) -> Statement {
    Statement::ConstraintEquality { lhs, rhs, meta: m() }
}

fn cond(c: Expression) -> Statement {
    Statement::IfThenElse { cond: c, meta: m() }
}

fn decl_stmt(var: usize, kind: VariableKind, dims: Vec<Expression>) -> Statement {
    Statement::Declaration { decl: Declaration { var, kind, dimensions: dims, meta: m() } }
}

fn build_cfg(
    name: &str,
    names: Vec<&str>,
    params: Vec<usize>,
    decls: Vec<(usize, VariableKind, Vec<Expression>)>,
    stmts: Vec<Statement>,
) -> Cfg {
    let n = names.len();
    let mut declarations: Vec<Option<Declaration>> = Vec::new();
    for _ in 0..n {
        declarations.push(None);
    }
    for (var, kind, dims) in decls {
        declarations[var] = Some(Declaration { var, kind, dimensions: dims, meta: m() });
    }
    Cfg {
        name: name.to_string(),
        names: names.iter().map(|s| s.to_string()).collect(),
        parameters: params.iter().map(|&var| VariableUse { var, meta: m() }).collect(),
        declarations,
        blocks: vec![BasicBlock { stmts, successors: vec![] }],
    }
}

/// A template whose final constraint uses `nout` where `lout` was meant:
/// the whole `lout`/`e` accumulation is dead.
/// Ids: 0 n, 1 in, 2 out, 3 lin, 4 lout.0, 5 nout, 6 e.0, 7 k.0,
/// 8 k.1 (phi), 9 lout.1 (phi), 10 e.1 (phi), 11 lout.2, 12 e.2, 13 k.2.
fn dead_reductions_cfg() -> Cfg {
    build_cfg(
        "T",
        vec![
            "n", "in", "out", "lin", "lout", "nout", "e", "k", "k", "lout", "e", "lout", "e",
            "k",
        ],
        vec![0],
        vec![
            (1, VariableKind::Input, vec![]),
            (2, VariableKind::Output, vec![v(0)]),
        ],
        vec![
            decl_stmt(1, VariableKind::Input, vec![]),
            decl_stmt(2, VariableKind::Output, vec![v(0)]),
            assign(3, bin(BinaryOp::Mul, v(1), v(1))),
            assign(4, lit(0)),
            assign(5, lit(0)),
            assign(6, lit(1)),
            assign(7, lit(0)),
            phi(8, vec![7, 13]),
            phi(9, vec![4, 11]),
            phi(10, vec![6, 12]),
            cond(bin(BinaryOp::Less, v(8), v(0))),
            assign_at(
                2,
                v(8),
                bin(BinaryOp::BitAnd, bin(BinaryOp::ShiftRight, v(1), v(8)), lit(1)),
            ),
            ceq(
                bin(
                    BinaryOp::Mul,
                    at(v(2), v(8)),
                    bin(BinaryOp::Sub, at(v(2), v(8)), lit(1)),
                ),
                lit(0),
            ),
            assign(
                11,
                bin(BinaryOp::Add, v(9), bin(BinaryOp::Mul, at(v(2), v(8)), v(10))),
            ),
            assign(12, bin(BinaryOp::Add, v(10), v(10))),
            assign(13, bin(BinaryOp::Add, v(8), lit(1))),
            ceq(v(3), v(5)),
        ],
    )
}

#[test]
fn test_side_effect_analysis() {
    // Dead reductions inside a loop: the `lout` accumulator and the
    // weight `e` never reach the mistaken final constraint.
    let reports = run_side_effect_analysis(&dead_reductions_cfg());
    assert_eq!(reports.len(), 4);
    for report in &reports {
        assert!(matches!(report.code, ReportCode::VariableWithoutSideEffect));
    }

    // Unused helper variables in a constraint-heavy template, with no
    // input read: the helpers and components never reach a constraint
    // sink, and the input signal is unused.
    // Ids: 0 k, 1 m, 2 n, 3 in, 4 LOGK, 5 LOGK2, 6 left, 7 right,
    // 8 i.0, 9 i.1 (phi), 10 i.2.
    let cfg = build_cfg(
        "PointOnLine",
        vec!["k", "m", "n", "in", "LOGK", "LOGK2", "left", "right", "i", "i", "i"],
        vec![0, 1, 2],
        vec![
            (3, VariableKind::Input, vec![lit(2)]),
            (6, VariableKind::Component, vec![]),
            (7, VariableKind::Component, vec![v(1)]),
        ],
        vec![
            decl_stmt(3, VariableKind::Input, vec![lit(2)]),
            assign(4, call("log2", vec![v(0)])),
            assign(5, call("log2", vec![bin(BinaryOp::Mul, v(0), v(0))])),
            Statement::Assert {
                value: bin(
                    BinaryOp::Less,
                    bin(BinaryOp::Add, bin(BinaryOp::Mul, lit(3), v(2)), v(5)),
                    lit(251),
                ),
                meta: m(),
            },
            decl_stmt(6, VariableKind::Component, vec![]),
            assign(
                6,
                call(
                    "BigTemplate",
                    vec![
                        v(2),
                        v(0),
                        bin(
                            BinaryOp::Add,
                            bin(BinaryOp::Mul, lit(2), v(2)),
                            bin(BinaryOp::Add, v(4), lit(1)),
                        ),
                    ],
                ),
            ),
            decl_stmt(7, VariableKind::Component, vec![v(1)]),
            assign(8, lit(0)),
            phi(9, vec![8, 10]),
            cond(bin(BinaryOp::Less, v(9), v(2))),
            assign_at(7, v(9), call("SmallTemplate", vec![v(0)])),
            assign(10, bin(BinaryOp::Add, v(9), lit(1))),
            ceq(access(v(6), "a"), access(at(v(7), lit(0)), "a")),
            ceq(access(v(6), "b"), access(at(v(7), lit(0)), "b")),
        ],
    );
    let reports = run_side_effect_analysis(&cfg);
    assert_eq!(reports.len(), 4);

    // Fully live template: both accumulators feed the final constraint.
    // Ids: 0 n, 1 in, 2 out, 3 e.0, 4 lin.0, 5 i.0, 6 i.1 (phi),
    // 7 lin.1 (phi), 8 e.1 (phi), 9 lin.2, 10 e.2, 11 i.2, 12 lout.0,
    // 13 j.0, 14 j.1 (phi), 15 lout.1 (phi), 16 lout.2, 17 j.2.
    let cfg = build_cfg(
        "Sum",
        vec![
            "n", "in", "out", "e", "lin", "i", "i", "lin", "e", "lin", "e", "i", "lout", "j",
            "j", "lout", "lout", "j",
        ],
        vec![0],
        vec![
            (1, VariableKind::Input, vec![v(0)]),
            (2, VariableKind::Output, vec![v(0)]),
        ],
        vec![
            decl_stmt(1, VariableKind::Input, vec![v(0)]),
            decl_stmt(2, VariableKind::Output, vec![v(0)]),
            assign(3, lit(1)),
            assign(4, lit(0)),
            assign(5, lit(0)),
            phi(6, vec![5, 11]),
            phi(7, vec![4, 9]),
            phi(8, vec![3, 10]),
            cond(bin(BinaryOp::Less, v(6), v(0))),
            assign(
                9,
                bin(BinaryOp::Add, v(7), bin(BinaryOp::Mul, at(v(1), v(6)), v(8))),
            ),
            assign(10, bin(BinaryOp::Add, v(8), v(8))),
            assign(11, bin(BinaryOp::Add, v(6), lit(1))),
            assign(12, lit(0)),
            assign(13, lit(0)),
            phi(14, vec![13, 17]),
            phi(15, vec![12, 16]),
            cond(bin(BinaryOp::Less, v(14), v(0))),
            assign(16, bin(BinaryOp::Add, v(15), at(v(2), v(14)))),
            assign(17, bin(BinaryOp::Add, v(14), lit(1))),
            ceq(v(7), v(15)),
        ],
    );
    let reports = run_side_effect_analysis(&cfg);
    assert_eq!(reports.len(), 0);

    // A signal assigned but never constrained. Ids: 0 n, 1 tmp.
    let cfg = build_cfg(
        "T",
        vec!["n", "tmp"],
        vec![0],
        vec![(1, VariableKind::Intermediate, vec![v(0)])],
        vec![
            decl_stmt(1, VariableKind::Intermediate, vec![v(0)]),
            assign_at(1, lit(0), lit(0)),
        ],
    );
    let reports = run_side_effect_analysis(&cfg);
    assert_eq!(reports.len(), 1);
    assert!(matches!(reports[0].code, ReportCode::UnusedVariableValue));
}

#[test]
fn pure_function_has_no_reports() {
    // A function reading its parameter and returning it. Ids: 0 m.
    let cfg = build_cfg(
        "f",
        vec!["m"],
        vec![0],
        vec![],
        vec![Statement::Return { value: v(0), meta: m() }],
    );
    let reports = run_side_effect_analysis(&cfg);
    assert_eq!(reports.len(), 0);
}

#[test]
fn unused_parameter_is_reported() {
    // T(n, unused) { signal output out; out <== n; }
    // Ids: 0 n, 1 unused, 2 out.
    let cfg = build_cfg(
        "T",
        vec!["n", "unused", "out"],
        vec![0, 1],
        vec![(2, VariableKind::Output, vec![])],
        vec![
            decl_stmt(2, VariableKind::Output, vec![]),
            assign(2, v(0)),
            ceq(v(2), v(0)),
        ],
    );
    let reports = run_side_effect_analysis(&cfg);
    assert_eq!(reports.len(), 1);
    assert!(matches!(reports[0].code, ReportCode::UnusedParameterValue));
    assert_eq!(
        reports[0].message,
        "The parameter `unused` is never read.".to_string()
    );
}

#[test]
fn taints_any_matches_multi_step_taint() {
    // x -> y -> z, with w isolated. Ids: 0 x, 1 y, 2 z, 3 w.
    let cfg = build_cfg(
        "f",
        vec!["x", "y", "z", "w"],
        vec![0, 3],
        vec![],
        vec![assign(1, v(0)), assign(2, v(1))],
    );
    let ta = run_taint_analysis(&cfg);

    // The closure of x holds x, y and z but not w.
    let closure = ta.multi_step_taint(0);
    assert_eq!(closure, vec![true, true, true, false]);

    // taints_any agrees with intersecting the closure.
    for target in 0..4 {
        let mut set = vec![false, false, false, false];
        set[target] = true;
        let mut meets = false;
        for i in 0..4 {
            if closure[i] && set[i] {
                meets = true;
            }
        }
        assert_eq!(ta.taints_any(0, &set), meets);
    }
}

#[test]
fn constraint_reachability_is_symmetric_and_transitive() {
    // a === b and b === c chain a, b, c together; d stays alone.
    // Ids: 0 a, 1 b, 2 c, 3 d.
    let cfg = build_cfg(
        "f",
        vec!["a", "b", "c", "d"],
        vec![0, 1, 2, 3],
        vec![],
        vec![ceq(v(0), v(1)), ceq(v(1), v(2))],
    );
    let ca = run_constraint_analysis(&cfg);
    for u in 0..4 {
        let from_u = ca.multi_step_constraint(u);
        for w in 0..4 {
            let from_w = ca.multi_step_constraint(w);
            assert_eq!(from_u[w], from_w[u]);
        }
    }
    // Transitive: a reaches c through b.
    let from_a = ca.multi_step_constraint(0);
    assert_eq!(from_a, vec![true, true, true, false]);
    // A node with no constraint edges has an empty neighborhood.
    let from_d = ca.multi_step_constraint(3);
    assert_eq!(from_d, vec![false, false, false, false]);
    assert_eq!(ca.constrained_variables(), &vec![true, true, true, false]);
}

#[test]
fn repeated_runs_are_identical() {
    let cfg = dead_reductions_cfg();
    let first = run_side_effect_analysis(&cfg);
    let second = run_side_effect_analysis(&cfg);
    assert_eq!(first.len(), second.len());
    for i in 0..first.len() {
        assert_eq!(first[i].message, second[i].message);
        assert!(first[i].code == second[i].code);
    }
}

#[test]
fn signal_reports_show_dimensions() {
    let dims = vec![v(0), lit(42)];
    let names = vec!["n".to_string(), "tmp".to_string()];
    let rendered = dimensions_to_string(&dims, &names);
    assert_eq!(rendered, "[n][42]".to_string());

    // An unconstrained array signal is reported once, with its shape.
    // Ids: 0 n, 1 tmp, 2 x.
    let cfg = build_cfg(
        "T",
        vec!["n", "tmp", "x"],
        vec![0],
        vec![(1, VariableKind::Intermediate, vec![v(0)])],
        vec![
            decl_stmt(1, VariableKind::Intermediate, vec![v(0)]),
            assign(2, at(v(1), lit(0))),
            Statement::Return { value: v(2), meta: m() },
        ],
    );
    let reports = run_side_effect_analysis(&cfg);
    assert_eq!(reports.len(), 1);
    assert!(matches!(reports[0].code, ReportCode::UnconstrainedSignal));
    assert_eq!(
        reports[0].message,
        "The signals `tmp[n]` are not constrained by the template.".to_string()
    );
}

#[test]
fn unused_variable_report_wording() {
    let report = UnusedVariableWarning {
        name: "x".to_string(),
        file_id: Some(1),
        file_location: (5, 7),
    }
    .into_report();
    assert_eq!(
        report.message,
        "The variable `x` is assigned a value, but this value is never read.".to_string()
    );
    assert!(matches!(report.code, ReportCode::UnusedVariableValue));
    assert_eq!(report.primary.len(), 1);
    assert_eq!(report.primary[0].file_id, 1);
    assert_eq!(report.primary[0].start, 5);
    assert_eq!(report.primary[0].end, 7);
    assert_eq!(report.secondary.len(), 0);
}
