//! Side-effect analysis: definitions that cannot influence the circuit.
//!
//! Local variables, parameters and intermediate signals that do not flow
//! into an input or output signal, a function return value, or a
//! constraint restricting such a signal are side-effect free: they affect
//! neither witness nor constraint generation and each earns a warning.

use vstd::prelude::*;
use vstd::string::StringExecFns;

use crate::bitset::{bitset_any, bitset_new, bitset_or};
use crate::constraint_analysis::{
    cfg_constrained, run_constraint_analysis, ConstraintAnalysis,
};
use crate::graph::{reaches, Graph, lemma_reaches_congruent};
use crate::ir::{
    add_stmt_reads, is_exported, is_signal, lemma_stmt_reads_in_range, stmt_is_syntactic_sink,
    stmt_reads, Cfg, Declaration, Expression, Meta, Statement, VariableUse,
};
use crate::report::{
    FileID, FileLocation, LabelView, Report, ReportCode, ReportCollection, ReportView, Severity,
};
use crate::scan::{lemma_scan_block, lemma_scan_step, scan_full, scan_upto, stmt_at};
use crate::taint_analysis::{
    cfg_definitions, multi_step_taint_spec, run_taint_analysis, TaintAnalysis,
};

verus! {

// ---------------------------------------------------------------------
// Rendering of dimension expressions for messages.
// ---------------------------------------------------------------------

pub open spec fn digit_char(d: int) -> char {
    if d == 0 {
        '0'
    } else if d == 1 {
        '1'
    } else if d == 2 {
        '2'
    } else if d == 3 {
        '3'
    } else if d == 4 {
        '4'
    } else if d == 5 {
        '5'
    } else if d == 6 {
        '6'
    } else if d == 7 {
        '7'
    } else if d == 8 {
        '8'
    } else {
        '9'
    }
}

/// Decimal rendering of a number.
pub open spec fn dec_str(v: nat) -> Seq<char>
    decreases v,
{
    if v < 10 {
        seq![digit_char(v as int)]
    } else {
        dec_str(v / 10) + seq![digit_char((v % 10) as int)]
    }
}

pub open spec fn unary_op_str(op: crate::ir::UnaryOp) -> Seq<char> {
    match op {
        crate::ir::UnaryOp::Negate => "-"@,
        crate::ir::UnaryOp::Not => "!"@,
    }
}

pub open spec fn binary_op_str(op: crate::ir::BinaryOp) -> Seq<char> {
    match op {
        crate::ir::BinaryOp::Add => " + "@,
        crate::ir::BinaryOp::Sub => " - "@,
        crate::ir::BinaryOp::Mul => " * "@,
        crate::ir::BinaryOp::ShiftRight => " >> "@,
        crate::ir::BinaryOp::BitAnd => " & "@,
        crate::ir::BinaryOp::Less => " < "@,
        crate::ir::BinaryOp::Equal => " == "@,
    }
}

/// How an expression is shown in a message. A call shows its callee only:
/// argument lists stay folded.
pub open spec fn expr_str(e: Expression, names: Seq<Seq<char>>) -> Seq<char>
    decreases e,
{
    match e {
        Expression::Literal { value } => dec_str(value as nat),
        Expression::Variable { var } => if var < names.len() {
            names[var as int]
        } else {
            Seq::empty()
        },
        Expression::Unary { op, operand } => seq!['('] + unary_op_str(op) + expr_str(
            *operand,
            names,
        ) + seq![')'],
        Expression::Binary { op, lhs, rhs } => seq!['('] + expr_str(*lhs, names)
            + binary_op_str(op) + expr_str(*rhs, names) + seq![')'],
        Expression::Subscript { base, index } => expr_str(*base, names) + seq!['[']
            + expr_str(*index, names) + seq![']'],
        Expression::Call { name, .. } => name@ + "(...)"@,
        Expression::Access { base, field } => expr_str(*base, names) + seq!['.'] + field@,
    }
}

/// The `[d1][d2]...` suffix shown for an array declaration.
pub open spec fn dims_str(dims: Seq<Expression>, names: Seq<Seq<char>>) -> Seq<char>
    decreases dims,
{
    if dims.len() == 0 {
        Seq::empty()
    } else {
        dims_str(dims.drop_last(), names) + seq!['['] + expr_str(dims.last(), names) + seq![']']
    }
}

pub open spec fn names_view(names: Seq<String>) -> Seq<Seq<char>> {
    names.map_values(|s: String| s@)
}

fn digit_str(d: u64) -> (r: &'static str)
    requires
        d < 10,
    ensures
        r@ == seq![digit_char(d as int)],
{
    let r: &'static str = if d == 0 {
        "0"
    } else if d == 1 {
        "1"
    } else if d == 2 {
        "2"
    } else if d == 3 {
        "3"
    } else if d == 4 {
        "4"
    } else if d == 5 {
        "5"
    } else if d == 6 {
        "6"
    } else if d == 7 {
        "7"
    } else if d == 8 {
        "8"
    } else {
        "9"
    };
    proof {
        reveal_strlit("0");
        reveal_strlit("1");
        reveal_strlit("2");
        reveal_strlit("3");
        reveal_strlit("4");
        reveal_strlit("5");
        reveal_strlit("6");
        reveal_strlit("7");
        reveal_strlit("8");
        reveal_strlit("9");
        assert(r@ =~= seq![digit_char(d as int)]);
    }
    r
}

fn dec_to_string(v: u64) -> (r: String)
    ensures
        r@ == dec_str(v as nat),
    decreases v,
{
    if v < 10 {
        let mut s = String::new();
        s.append(digit_str(v));
        proof {
            assert(s@ =~= dec_str(v as nat));
        }
        s
    } else {
        let mut s = dec_to_string(v / 10);
        s.append(digit_str(v % 10));
        proof {
            assert(s@ =~= dec_str(v as nat));
        }
        s
    }
}

/// Renders one expression for a message.
fn expr_to_string(e: &Expression, names: &Vec<String>) -> (r: String)
    ensures
        r@ == expr_str(*e, names_view(names@)),
    decreases *e,
{
    match e {
        Expression::Literal { value } => dec_to_string(*value),
        Expression::Variable { var } => {
            if *var < names.len() {
                let s = String::from_str(names[*var].as_str());
                proof {
                    assert(s@ =~= expr_str(*e, names_view(names@)));
                }
                s
            } else {
                let s = String::new();
                proof {
                    assert(s@ =~= expr_str(*e, names_view(names@)));
                }
                s
            }
        },
        Expression::Unary { op, operand } => {
            let mut s = String::from_str("(");
            match op {
                crate::ir::UnaryOp::Negate => s.append("-"),
                crate::ir::UnaryOp::Not => s.append("!"),
            }
            let inner = expr_to_string(operand, names);
            s.append(inner.as_str());
            s.append(")");
            proof {
                reveal_strlit("(");
                reveal_strlit(")");
                assert(s@ =~= expr_str(*e, names_view(names@)));
            }
            s
        },
        Expression::Binary { op, lhs, rhs } => {
            let mut s = String::from_str("(");
            let left = expr_to_string(lhs, names);
            s.append(left.as_str());
            match op {
                crate::ir::BinaryOp::Add => s.append(" + "),
                crate::ir::BinaryOp::Sub => s.append(" - "),
                crate::ir::BinaryOp::Mul => s.append(" * "),
                crate::ir::BinaryOp::ShiftRight => s.append(" >> "),
                crate::ir::BinaryOp::BitAnd => s.append(" & "),
                crate::ir::BinaryOp::Less => s.append(" < "),
                crate::ir::BinaryOp::Equal => s.append(" == "),
            }
            let right = expr_to_string(rhs, names);
            s.append(right.as_str());
            s.append(")");
            proof {
                reveal_strlit("(");
                reveal_strlit(")");
                assert(s@ =~= expr_str(*e, names_view(names@)));
            }
            s
        },
        Expression::Subscript { base, index } => {
            let mut s = expr_to_string(base, names);
            s.append("[");
            let inner = expr_to_string(index, names);
            s.append(inner.as_str());
            s.append("]");
            proof {
                reveal_strlit("[");
                reveal_strlit("]");
                assert(s@ =~= expr_str(*e, names_view(names@)));
            }
            s
        },
        Expression::Call { name, .. } => {
            let mut s = String::from_str(name.as_str());
            s.append("(...)");
            proof {
                assert(s@ =~= expr_str(*e, names_view(names@)));
            }
            s
        },
        Expression::Access { base, field } => {
            let mut s = expr_to_string(base, names);
            s.append(".");
            s.append(field.as_str());
            proof {
                reveal_strlit(".");
                assert(s@ =~= expr_str(*e, names_view(names@)));
            }
            s
        },
    }
}

/// Renders the array shape of a declaration, one bracketed dimension per
/// entry.
pub fn dimensions_to_string(dimensions: &Vec<Expression>, names: &Vec<String>) -> (r: String)
    ensures
        r@ == dims_str(dimensions@, names_view(names@)),
{
    let mut s = String::new();
    let nd = dimensions.len();
    let mut i: usize = 0;
    while i < nd
        invariant
            nd == dimensions@.len(),
            i <= nd,
            s@ == dims_str(dimensions@.take(i as int), names_view(names@)),
        decreases nd - i,
    {
        s.append("[");
        let inner = expr_to_string(&dimensions[i], names);
        s.append(inner.as_str());
        s.append("]");
        proof {
            reveal_strlit("[");
            reveal_strlit("]");
            let t = dimensions@.take(i + 1);
            assert(t.drop_last() =~= dimensions@.take(i as int));
            assert(t.last() == dimensions@[i as int]);
            assert(s@ =~= dims_str(t, names_view(names@)));
        }
        i = i + 1;
    }
    proof {
        assert(dimensions@.take(nd as int) =~= dimensions@);
    }
    s
}

// ---------------------------------------------------------------------
// The warnings and their reports.
// ---------------------------------------------------------------------

/// A value is assigned but never read.
pub struct UnusedVariableWarning {
    pub name: String,
    pub file_id: Option<FileID>,
    pub file_location: FileLocation,
}

pub open spec fn primary_of(
    file_id: Option<FileID>,
    loc: FileLocation,
    message: Seq<char>,
) -> Seq<LabelView> {
    match file_id {
        Some(id) => seq![
            (LabelView { file_id: id, start: loc.0, end: loc.1, message }),
        ],
        None => Seq::empty(),
    }
}

pub open spec fn unused_variable_view(
    name: Seq<char>,
    file_id: Option<FileID>,
    loc: FileLocation,
) -> ReportView {
    ReportView {
        severity: Severity::Warning,
        code: ReportCode::UnusedVariableValue,
        message: "The variable `"@ + name
            + "` is assigned a value, but this value is never read."@,
        primary: primary_of(file_id, loc, "The value assigned here is never read."@),
        secondary: Seq::empty(),
    }
}

impl UnusedVariableWarning {
    pub fn into_report(self) -> (r: Report)
        ensures
            r@ == unused_variable_view(self.name@, self.file_id, self.file_location),
    {
        let mut msg = String::from_str("The variable `");
        msg.append(self.name.as_str());
        msg.append("` is assigned a value, but this value is never read.");
        let mut report = Report::warning(msg, ReportCode::UnusedVariableValue);
        if let Some(file_id) = self.file_id {
            report.add_primary(
                self.file_location.0,
                self.file_location.1,
                file_id,
                String::from_str("The value assigned here is never read."),
            );
        }
        proof {
            assert(report@ =~= unused_variable_view(
                self.name@,
                self.file_id,
                self.file_location,
            ));
        }
        report
    }
}

/// A parameter is never read anywhere in its construct.
pub struct UnusedParameterWarning {
    pub function_name: String,
    pub variable_name: String,
    pub file_id: Option<FileID>,
    pub file_location: FileLocation,
}

pub open spec fn unused_parameter_view(
    function_name: Seq<char>,
    variable_name: Seq<char>,
    file_id: Option<FileID>,
    loc: FileLocation,
) -> ReportView {
    ReportView {
        severity: Severity::Warning,
        code: ReportCode::UnusedParameterValue,
        message: "The parameter `"@ + variable_name + "` is never read."@,
        primary: primary_of(
            file_id,
            loc,
            "The parameter `"@ + variable_name + "` is never used in `"@ + function_name
                + "`."@,
        ),
        secondary: Seq::empty(),
    }
}

impl UnusedParameterWarning {
    pub fn into_report(self) -> (r: Report)
        ensures
            r@ == unused_parameter_view(
                self.function_name@,
                self.variable_name@,
                self.file_id,
                self.file_location,
            ),
    {
        let mut msg = String::from_str("The parameter `");
        msg.append(self.variable_name.as_str());
        msg.append("` is never read.");
        let mut report = Report::warning(msg, ReportCode::UnusedParameterValue);
        if let Some(file_id) = self.file_id {
            let mut note = String::from_str("The parameter `");
            note.append(self.variable_name.as_str());
            note.append("` is never used in `");
            note.append(self.function_name.as_str());
            note.append("`.");
            report.add_primary(self.file_location.0, self.file_location.1, file_id, note);
        }
        proof {
            assert(report@ =~= unused_parameter_view(
                self.function_name@,
                self.variable_name@,
                self.file_id,
                self.file_location,
            ));
        }
        report
    }
}

/// A value is read, but never flows into witness or constraint
/// generation.
pub struct VariableWithoutSideEffectsWarning {
    pub name: String,
    pub file_id: Option<FileID>,
    pub file_location: FileLocation,
}

pub open spec fn variable_without_side_effects_view(
    name: Seq<char>,
    file_id: Option<FileID>,
    loc: FileLocation,
) -> ReportView {
    ReportView {
        severity: Severity::Warning,
        code: ReportCode::VariableWithoutSideEffect,
        message: "The value assigned to `"@ + name
            + "` is not used in witness or constraint generation."@,
        primary: primary_of(
            file_id,
            loc,
            "The value assigned to `"@ + name
                + "` here does not influence witness or constraint generation."@,
        ),
        secondary: Seq::empty(),
    }
}

impl VariableWithoutSideEffectsWarning {
    pub fn into_report(self) -> (r: Report)
        ensures
            r@ == variable_without_side_effects_view(
                self.name@,
                self.file_id,
                self.file_location,
            ),
    {
        let mut msg = String::from_str("The value assigned to `");
        msg.append(self.name.as_str());
        msg.append("` is not used in witness or constraint generation.");
        let mut report = Report::warning(msg, ReportCode::VariableWithoutSideEffect);
        if let Some(file_id) = self.file_id {
            let mut note = String::from_str("The value assigned to `");
            note.append(self.name.as_str());
            note.append("` here does not influence witness or constraint generation.");
            report.add_primary(self.file_location.0, self.file_location.1, file_id, note);
        }
        proof {
            assert(report@ =~= variable_without_side_effects_view(
                self.name@,
                self.file_id,
                self.file_location,
            ));
        }
        report
    }
}

/// A parameter never flows into witness or constraint generation.
pub struct ParamWithoutSideEffectsWarning {
    pub name: String,
    pub file_id: Option<FileID>,
    pub file_location: FileLocation,
}

pub open spec fn param_without_side_effects_view(
    name: Seq<char>,
    file_id: Option<FileID>,
    loc: FileLocation,
) -> ReportView {
    ReportView {
        severity: Severity::Warning,
        code: ReportCode::VariableWithoutSideEffect,
        message: "The parameter `"@ + name
            + "` is not used in witness or constraint generation."@,
        primary: primary_of(
            file_id,
            loc,
            "The value of the parameter `"@ + name
                + "` does not influence witness or constraint generation."@,
        ),
        secondary: Seq::empty(),
    }
}

impl ParamWithoutSideEffectsWarning {
    pub fn into_report(self) -> (r: Report)
        ensures
            r@ == param_without_side_effects_view(self.name@, self.file_id, self.file_location),
    {
        let mut msg = String::from_str("The parameter `");
        msg.append(self.name.as_str());
        msg.append("` is not used in witness or constraint generation.");
        let mut report = Report::warning(msg, ReportCode::VariableWithoutSideEffect);
        if let Some(file_id) = self.file_id {
            let mut note = String::from_str("The value of the parameter `");
            note.append(self.name.as_str());
            note.append("` does not influence witness or constraint generation.");
            report.add_primary(self.file_location.0, self.file_location.1, file_id, note);
        }
        proof {
            assert(report@ =~= param_without_side_effects_view(
                self.name@,
                self.file_id,
                self.file_location,
            ));
        }
        report
    }
}

/// A signal is never used at all.
pub struct UnusedSignalWarning {
    pub name: String,
    pub dimensions: String,
    pub file_id: Option<FileID>,
    pub file_location: FileLocation,
}

pub open spec fn unused_signal_view(
    name: Seq<char>,
    dimensions: Seq<char>,
    file_id: Option<FileID>,
    loc: FileLocation,
) -> ReportView {
    if dimensions.len() == 0 {
        ReportView {
            severity: Severity::Warning,
            code: ReportCode::UnusedVariableValue,
            message: "The signal `"@ + name + "` is not used by the template."@,
            primary: primary_of(file_id, loc, "This signal is unused and could be removed."@),
            secondary: Seq::empty(),
        }
    } else {
        ReportView {
            severity: Severity::Warning,
            code: ReportCode::UnusedVariableValue,
            message: "The signals `"@ + name + dimensions + "` are not used by the template."@,
            primary: primary_of(
                file_id,
                loc,
                "These signals are unused and could be removed."@,
            ),
            secondary: Seq::empty(),
        }
    }
}

impl UnusedSignalWarning {
    pub fn into_report(self) -> (r: Report)
        ensures
            r@ == unused_signal_view(
                self.name@,
                self.dimensions@,
                self.file_id,
                self.file_location,
            ),
    {
        let mut report = if self.dimensions.as_str().is_empty() {
            let mut msg = String::from_str("The signal `");
            msg.append(self.name.as_str());
            msg.append("` is not used by the template.");
            let mut report = Report::warning(msg, ReportCode::UnusedVariableValue);
            if let Some(file_id) = self.file_id {
                report.add_primary(
                    self.file_location.0,
                    self.file_location.1,
                    file_id,
                    String::from_str("This signal is unused and could be removed."),
                );
            }
            report
        } else {
            let mut msg = String::from_str("The signals `");
            msg.append(self.name.as_str());
            msg.append(self.dimensions.as_str());
            msg.append("` are not used by the template.");
            let mut report = Report::warning(msg, ReportCode::UnusedVariableValue);
            if let Some(file_id) = self.file_id {
                report.add_primary(
                    self.file_location.0,
                    self.file_location.1,
                    file_id,
                    String::from_str("These signals are unused and could be removed."),
                );
            }
            report
        };
        proof {
            assert(report@ =~= unused_signal_view(
                self.name@,
                self.dimensions@,
                self.file_id,
                self.file_location,
            ));
        }
        report
    }
}

/// A signal never occurs in a constraint, directly or through data flow.
pub struct UnconstrainedSignalWarning {
    pub name: String,
    pub dimensions: String,
    pub file_id: Option<FileID>,
    pub file_location: FileLocation,
}

pub open spec fn unconstrained_signal_view(
    name: Seq<char>,
    dimensions: Seq<char>,
    file_id: Option<FileID>,
    loc: FileLocation,
) -> ReportView {
    if dimensions.len() == 0 {
        ReportView {
            severity: Severity::Warning,
            code: ReportCode::UnconstrainedSignal,
            message: "The signal `"@ + name + "` is not constrained by the template."@,
            primary: primary_of(
                file_id,
                loc,
                "This signal does not occur in a constraint."@,
            ),
            secondary: Seq::empty(),
        }
    } else {
        ReportView {
            severity: Severity::Warning,
            code: ReportCode::UnconstrainedSignal,
            message: "The signals `"@ + name + dimensions
                + "` are not constrained by the template."@,
            primary: primary_of(
                file_id,
                loc,
                "These signals do not occur in a constraint."@,
            ),
            secondary: Seq::empty(),
        }
    }
}

impl UnconstrainedSignalWarning {
    pub fn into_report(self) -> (r: Report)
        ensures
            r@ == unconstrained_signal_view(
                self.name@,
                self.dimensions@,
                self.file_id,
                self.file_location,
            ),
    {
        let mut report = if self.dimensions.as_str().is_empty() {
            let mut msg = String::from_str("The signal `");
            msg.append(self.name.as_str());
            msg.append("` is not constrained by the template.");
            let mut report = Report::warning(msg, ReportCode::UnconstrainedSignal);
            if let Some(file_id) = self.file_id {
                report.add_primary(
                    self.file_location.0,
                    self.file_location.1,
                    file_id,
                    String::from_str("This signal does not occur in a constraint."),
                );
            }
            report
        } else {
            let mut msg = String::from_str("The signals `");
            msg.append(self.name.as_str());
            msg.append(self.dimensions.as_str());
            msg.append("` are not constrained by the template.");
            let mut report = Report::warning(msg, ReportCode::UnconstrainedSignal);
            if let Some(file_id) = self.file_id {
                report.add_primary(
                    self.file_location.0,
                    self.file_location.1,
                    file_id,
                    String::from_str("These signals do not occur in a constraint."),
                );
            }
            report
        };
        proof {
            assert(report@ =~= unconstrained_signal_view(
                self.name@,
                self.dimensions@,
                self.file_id,
                self.file_location,
            ));
        }
        report
    }
}

// ---------------------------------------------------------------------
// What the analysis finds, abstractly.
// ---------------------------------------------------------------------

/// One finding, before it is worded: which rule fired for which
/// variable.
#[derive(Clone, Copy)]
pub enum Warning {
    UnusedVariable { var: usize, meta: Meta },
    UnusedParameter { var: usize, meta: Meta },
    VariableWithoutSideEffects { var: usize, meta: Meta },
    ParamWithoutSideEffects { var: usize, meta: Meta },
    UnusedSignal { var: usize },
    UnconstrainedSignal { var: usize },
}

/// The report a finding turns into.
pub open spec fn warning_view(cfg: Cfg, w: Warning) -> ReportView {
    match w {
        Warning::UnusedVariable { var, meta } => unused_variable_view(
            cfg.names@[var as int]@,
            meta.file_id,
            (meta.start, meta.end),
        ),
        Warning::UnusedParameter { var, meta } => unused_parameter_view(
            cfg.name@,
            cfg.names@[var as int]@,
            meta.file_id,
            (meta.start, meta.end),
        ),
        Warning::VariableWithoutSideEffects { var, meta } => variable_without_side_effects_view(
            cfg.names@[var as int]@,
            meta.file_id,
            (meta.start, meta.end),
        ),
        Warning::ParamWithoutSideEffects { var, meta } => param_without_side_effects_view(
            cfg.names@[var as int]@,
            meta.file_id,
            (meta.start, meta.end),
        ),
        Warning::UnusedSignal { var } => {
            let d = cfg.declarations@[var as int]->0;
            unused_signal_view(
                cfg.names@[var as int]@,
                dims_str(d.dimensions@, names_view(cfg.names@)),
                d.meta.file_id,
                (d.meta.start, d.meta.end),
            )
        },
        Warning::UnconstrainedSignal { var } => {
            let d = cfg.declarations@[var as int]->0;
            unconstrained_signal_view(
                cfg.names@[var as int]@,
                dims_str(d.dimensions@, names_view(cfg.names@)),
                d.meta.file_id,
                (d.meta.start, d.meta.end),
            )
        },
    }
}

// ---------------------------------------------------------------------
// The sink set.
// ---------------------------------------------------------------------

pub open spec fn reads_pred(v: int) -> spec_fn(Statement) -> bool {
    |st: Statement| stmt_reads(st).contains(v)
}

pub open spec fn sink_read_pred(v: int) -> spec_fn(Statement) -> bool {
    |st: Statement| stmt_is_syntactic_sink(st) && stmt_reads(st).contains(v)
}

/// `v` is read by some statement of the graph.
pub open spec fn cfg_reads_var(cfg: Cfg, v: int) -> bool {
    scan_full(cfg, reads_pred(v))
}

/// `v` is read by a declaration dimension, a return value, an asserted
/// value or a branch condition: a sink by itself.
pub open spec fn cfg_sink_read(cfg: Cfg, v: int) -> bool {
    scan_full(cfg, sink_read_pred(v))
}

/// `v` is declared as an input or output signal.
pub open spec fn is_exported_var(cfg: Cfg, v: int) -> bool {
    0 <= v < cfg.spec_n_vars() && cfg.declarations@[v] is Some && is_exported(
        cfg.declarations@[v]->0.kind,
    )
}

/// `v` is declared as a signal of any kind.
pub open spec fn is_signal_var(cfg: Cfg, v: int) -> bool {
    0 <= v < cfg.spec_n_vars() && cfg.declarations@[v] is Some && is_signal(
        cfg.declarations@[v]->0.kind,
    )
}

/// The taint graph of `cfg`, abstractly.
pub open spec fn taint_graph_matches(cfg: Cfg, g: Graph) -> bool {
    &&& g.wf()
    &&& g.n() == cfg.spec_n_vars()
    &&& forall|u: int, v: int| g.edge(u, v) == crate::taint_analysis::cfg_taint_edge(cfg, u, v)
}

/// The constraint graph of `cfg`, abstractly.
pub open spec fn constraint_graph_matches(cfg: Cfg, g: Graph) -> bool {
    &&& g.wf()
    &&& g.n() == cfg.spec_n_vars()
    &&& forall|u: int, v: int| g.edge(u, v) == crate::constraint_analysis::cfg_constraint_edge(
        cfg,
        u,
        v,
    )
}

/// `w` is tainted by some input or output signal.
pub open spec fn in_exported_taint(cfg: Cfg, gt: Graph, w: int) -> bool {
    exists|v: int| is_exported_var(cfg, v) && #[trigger] multi_step_taint_spec(gt, v, w)
}

/// `w` belongs to the constraint neighborhood of a name tainted by an
/// input or output signal; the source joins its own neighborhood only
/// when that neighborhood is non-empty.
pub open spec fn in_constraint_sinks(cfg: Cfg, gt: Graph, gc: Graph, w: int) -> bool {
    exists|s: int|
        #[trigger] in_exported_taint(cfg, gt, s) && (reaches(gc, s, w) || (w == s
            && exists|t: int| reaches(gc, s, t)))
}

/// The sinks: constraint neighborhoods of exported taint, the exported
/// signals themselves, and everything read by a syntactic sink
/// statement.
pub open spec fn is_sink(cfg: Cfg, gt: Graph, gc: Graph, w: int) -> bool {
    in_constraint_sinks(cfg, gt, gc, w) || is_exported_var(cfg, w) || cfg_sink_read(cfg, w)
}

/// `v` taints some sink.
pub open spec fn taints_sink(cfg: Cfg, gt: Graph, gc: Graph, v: int) -> bool {
    exists|w: int|
        0 <= w < cfg.spec_n_vars() && #[trigger] multi_step_taint_spec(gt, v, w) && is_sink(
            cfg,
            gt,
            gc,
            w,
        )
}

/// `v` taints some name that occurs in a constraint.
pub open spec fn taints_constrained(cfg: Cfg, gt: Graph, v: int) -> bool {
    exists|w: int|
        0 <= w < cfg.spec_n_vars() && #[trigger] multi_step_taint_spec(gt, v, w)
            && cfg_constrained(cfg, w)
}

// ---------------------------------------------------------------------
// The warnings the analysis produces, in order.
// ---------------------------------------------------------------------

/// The warning the variable pass emits for one definition site.
pub open spec fn def_warning(cfg: Cfg, gt: Graph, gc: Graph, d: VariableUse) -> Seq<Warning> {
    if !cfg_reads_var(cfg, d.var as int) {
        if cfg.spec_is_parameter(d.var as int) {
            seq![Warning::UnusedParameter { var: d.var, meta: d.meta }]
        } else {
            seq![Warning::UnusedVariable { var: d.var, meta: d.meta }]
        }
    } else if !taints_sink(cfg, gt, gc, d.var as int) {
        if cfg.spec_is_parameter(d.var as int) {
            seq![Warning::ParamWithoutSideEffects { var: d.var, meta: d.meta }]
        } else {
            seq![Warning::VariableWithoutSideEffects { var: d.var, meta: d.meta }]
        }
    } else {
        Seq::empty()
    }
}

/// The variable pass reported this definition.
pub open spec fn def_reported(cfg: Cfg, gt: Graph, gc: Graph, d: VariableUse) -> bool {
    !cfg_reads_var(cfg, d.var as int) || !taints_sink(cfg, gt, gc, d.var as int)
}

/// The warnings of the variable pass over the first `i` definitions.
pub open spec fn var_warnings_upto(cfg: Cfg, gt: Graph, gc: Graph, i: int) -> Seq<Warning>
    decreases i,
{
    if i <= 0 {
        Seq::empty()
    } else {
        var_warnings_upto(cfg, gt, gc, i - 1) + def_warning(
            cfg,
            gt,
            gc,
            cfg_definitions(cfg)[i - 1],
        )
    }
}

/// The variable pass reported some definition of this name.
pub open spec fn var_reported(cfg: Cfg, gt: Graph, gc: Graph, v: int) -> bool {
    exists|i: int|
        0 <= i < cfg_definitions(cfg).len() && (#[trigger] cfg_definitions(cfg)[i]).var as int
            == v && def_reported(cfg, gt, gc, cfg_definitions(cfg)[i])
}

/// The warning the signal pass emits for one variable id.
pub open spec fn signal_warning(cfg: Cfg, gt: Graph, gc: Graph, v: int) -> Seq<Warning> {
    if is_signal_var(cfg, v) && !var_reported(cfg, gt, gc, v) {
        if !cfg_reads_var(cfg, v) {
            seq![Warning::UnusedSignal { var: v as usize }]
        } else if !taints_constrained(cfg, gt, v) {
            seq![Warning::UnconstrainedSignal { var: v as usize }]
        } else {
            Seq::empty()
        }
    } else {
        Seq::empty()
    }
}

/// The warnings of the signal pass over ids below `i`.
pub open spec fn signal_warnings_upto(cfg: Cfg, gt: Graph, gc: Graph, i: int) -> Seq<Warning>
    decreases i,
{
    if i <= 0 {
        Seq::empty()
    } else {
        signal_warnings_upto(cfg, gt, gc, i - 1) + signal_warning(cfg, gt, gc, i - 1)
    }
}

/// Everything the analysis reports, in order: the variable pass over
/// every definition site, then the signal pass over every id.
pub open spec fn expected_warnings(cfg: Cfg, gt: Graph, gc: Graph) -> Seq<Warning> {
    var_warnings_upto(cfg, gt, gc, cfg_definitions(cfg).len() as int) + signal_warnings_upto(
        cfg,
        gt,
        gc,
        cfg.spec_n_vars(),
    )
}

pub open spec fn expected_report_views(cfg: Cfg, gt: Graph, gc: Graph) -> Seq<ReportView> {
    expected_warnings(cfg, gt, gc).map_values(|w: Warning| warning_view(cfg, w))
}

/// `reports` is what the side-effect analysis produces for `cfg`.
pub open spec fn analysis_result_ok(cfg: Cfg, reports: Seq<Report>) -> bool {
    exists|gt: Graph, gc: Graph|
        #[trigger] taint_graph_matches(cfg, gt) && #[trigger] constraint_graph_matches(cfg, gc)
            && reports.map_values(|r: Report| r@) == expected_report_views(cfg, gt, gc)
}

// ---------------------------------------------------------------------
// Report construction.
// ---------------------------------------------------------------------

/// Every definition site of a well-formed graph is in range.
pub proof fn lemma_block_defs_wf(blk: crate::ir::BasicBlock, s: int, n: int)
    requires
        0 <= s <= blk.stmts@.len(),
        forall|k: int| 0 <= k < blk.stmts@.len() ==> crate::ir::wf_stmt(blk.stmts@[k], n),
    ensures
        forall|j: int|
            0 <= j < crate::taint_analysis::block_defs(blk, s).len() ==> (
            #[trigger] crate::taint_analysis::block_defs(blk, s)[j]).var < n,
    decreases s,
{
    if s > 0 {
        lemma_block_defs_wf(blk, s - 1, n);
        assert(crate::ir::wf_stmt(blk.stmts@[s - 1], n));
    }
}

pub proof fn lemma_cfg_defs_wf(cfg: Cfg, b: int)
    requires
        cfg.wf(),
        0 <= b <= cfg.blocks@.len(),
    ensures
        forall|j: int|
            0 <= j < crate::taint_analysis::cfg_defs_upto(cfg, b).len() ==> (
            #[trigger] crate::taint_analysis::cfg_defs_upto(cfg, b)[j]).var < cfg.spec_n_vars(),
    decreases b,
{
    if b > 0 {
        lemma_cfg_defs_wf(cfg, b - 1);
        lemma_block_defs_wf(
            cfg.blocks@[b - 1],
            cfg.blocks@[b - 1].stmts@.len() as int,
            cfg.spec_n_vars(),
        );
    }
}

pub proof fn lemma_definitions_wf(cfg: Cfg)
    requires
        cfg.wf(),
    ensures
        forall|j: int|
            0 <= j < cfg_definitions(cfg).len() ==> (#[trigger] cfg_definitions(cfg)[j]).var
                < cfg.spec_n_vars(),
{
    lemma_cfg_defs_wf(cfg, cfg.blocks@.len() as int);
    assert forall|j: int| 0 <= j < cfg_definitions(cfg).len() implies (
    #[trigger] cfg_definitions(cfg)[j]).var < cfg.spec_n_vars() by {
        if j < cfg.parameters@.len() {
            assert(cfg_definitions(cfg)[j] == cfg.parameters@[j]);
        } else {
            assert(cfg_definitions(cfg)[j] == crate::taint_analysis::cfg_defs_upto(
                cfg,
                cfg.blocks@.len() as int,
            )[j - cfg.parameters@.len()]);
        }
    }
}

/// A report for a value that is assigned but never read.
pub fn build_unused_variable(cfg: &Cfg, definition: &VariableUse) -> (r: Report)
    requires
        definition.var < cfg.spec_n_vars(),
    ensures
        r@ == warning_view(
            *cfg,
            Warning::UnusedVariable { var: definition.var, meta: definition.meta },
        ),
{
    UnusedVariableWarning {
        name: String::from_str(cfg.names[definition.var].as_str()),
        file_id: definition.meta.file_id,
        file_location: (definition.meta.start, definition.meta.end),
    }.into_report()
}

/// A report for a parameter that is never read.
pub fn build_unused_param(cfg: &Cfg, definition: &VariableUse) -> (r: Report)
    requires
        definition.var < cfg.spec_n_vars(),
    ensures
        r@ == warning_view(
            *cfg,
            Warning::UnusedParameter { var: definition.var, meta: definition.meta },
        ),
{
    UnusedParameterWarning {
        function_name: String::from_str(cfg.name.as_str()),
        variable_name: String::from_str(cfg.names[definition.var].as_str()),
        file_id: definition.meta.file_id,
        file_location: (definition.meta.start, definition.meta.end),
    }.into_report()
}

/// A report for a value that never influences witness or constraints.
pub fn build_variable_without_side_effect(cfg: &Cfg, definition: &VariableUse) -> (r: Report)
    requires
        definition.var < cfg.spec_n_vars(),
    ensures
        r@ == warning_view(
            *cfg,
            Warning::VariableWithoutSideEffects { var: definition.var, meta: definition.meta },
        ),
{
    VariableWithoutSideEffectsWarning {
        name: String::from_str(cfg.names[definition.var].as_str()),
        file_id: definition.meta.file_id,
        file_location: (definition.meta.start, definition.meta.end),
    }.into_report()
}

/// A report for a parameter that never influences witness or constraints.
pub fn build_param_without_side_effect(cfg: &Cfg, definition: &VariableUse) -> (r: Report)
    requires
        definition.var < cfg.spec_n_vars(),
    ensures
        r@ == warning_view(
            *cfg,
            Warning::ParamWithoutSideEffects { var: definition.var, meta: definition.meta },
        ),
{
    ParamWithoutSideEffectsWarning {
        name: String::from_str(cfg.names[definition.var].as_str()),
        file_id: definition.meta.file_id,
        file_location: (definition.meta.start, definition.meta.end),
    }.into_report()
}

/// A report for a signal that is never used.
pub fn build_unused_signal(cfg: &Cfg, declaration: &Declaration) -> (r: Report)
    requires
        declaration.var < cfg.spec_n_vars(),
    ensures
        r@ == unused_signal_view(
            cfg.names@[declaration.var as int]@,
            dims_str(declaration.dimensions@, names_view(cfg.names@)),
            declaration.meta.file_id,
            (declaration.meta.start, declaration.meta.end),
        ),
{
    UnusedSignalWarning {
        name: String::from_str(cfg.names[declaration.var].as_str()),
        dimensions: dimensions_to_string(&declaration.dimensions, &cfg.names),
        file_id: declaration.meta.file_id,
        file_location: (declaration.meta.start, declaration.meta.end),
    }.into_report()
}

/// A report for a signal that never occurs in a constraint.
pub fn build_unconstrained_signal(cfg: &Cfg, declaration: &Declaration) -> (r: Report)
    requires
        declaration.var < cfg.spec_n_vars(),
    ensures
        r@ == unconstrained_signal_view(
            cfg.names@[declaration.var as int]@,
            dims_str(declaration.dimensions@, names_view(cfg.names@)),
            declaration.meta.file_id,
            (declaration.meta.start, declaration.meta.end),
        ),
{
    UnconstrainedSignalWarning {
        name: String::from_str(cfg.names[declaration.var].as_str()),
        dimensions: dimensions_to_string(&declaration.dimensions, &cfg.names),
        file_id: declaration.meta.file_id,
        file_location: (declaration.meta.start, declaration.meta.end),
    }.into_report()
}

pub open spec fn rv(reports: Seq<Report>) -> Seq<ReportView> {
    reports.map_values(|r: Report| r@)
}

pub open spec fn wv(cfg: Cfg, ws: Seq<Warning>) -> Seq<ReportView> {
    ws.map_values(|w: Warning| warning_view(cfg, w))
}

// ---------------------------------------------------------------------
// The analysis.
// ---------------------------------------------------------------------

/// Runs the side-effect analysis over a control-flow graph in SSA form
/// and collects one warning for each definition, parameter or signal
/// whose value cannot influence witness or constraint generation.
pub fn run_side_effect_analysis(cfg: &Cfg) -> (reports: ReportCollection)
    requires
        cfg.wf(),
    ensures
        analysis_result_ok(*cfg, reports@),
{
    let n = cfg.n_vars();
    let nb = cfg.blocks.len();
    let ta = run_taint_analysis(cfg);
    let ca = run_constraint_analysis(cfg);

    // Which variables are read anywhere, and which are read by
    // statements that are sinks by themselves.
    let mut reads = bitset_new(n);
    let mut sreads = bitset_new(n);
    let mut bi: usize = 0;
    while bi < nb
        invariant
            cfg.wf(),
            n == cfg.spec_n_vars(),
            nb == cfg.blocks@.len(),
            bi <= nb,
            reads@.len() == n,
            sreads@.len() == n,
            forall|v: int|
                0 <= v < n ==> (reads@[v] == scan_upto(*cfg, bi as int, 0, reads_pred(v))),
            forall|v: int|
                0 <= v < n ==> (sreads@[v] == scan_upto(*cfg, bi as int, 0, sink_read_pred(v))),
        decreases nb - bi,
    {
        let ns = cfg.blocks[bi].stmts.len();
        let mut si: usize = 0;
        while si < ns
            invariant
                cfg.wf(),
                n == cfg.spec_n_vars(),
                nb == cfg.blocks@.len(),
                bi < nb,
                ns == cfg.blocks@[bi as int].stmts@.len(),
                si <= ns,
                reads@.len() == n,
                sreads@.len() == n,
                forall|v: int|
                    0 <= v < n ==> (reads@[v] == scan_upto(
                        *cfg,
                        bi as int,
                        si as int,
                        reads_pred(v),
                    )),
                forall|v: int|
                    0 <= v < n ==> (sreads@[v] == scan_upto(
                        *cfg,
                        bi as int,
                        si as int,
                        sink_read_pred(v),
                    )),
            decreases ns - si,
        {
            let st = &cfg.blocks[bi].stmts[si];
            proof {
                assert(*st == stmt_at(*cfg, bi as int, si as int));
                assert(crate::ir::wf_stmt(*st, n as int));
                lemma_stmt_reads_in_range(*st, n as int);
            }
            let ghost reads0 = reads@;
            let ghost sreads0 = sreads@;
            reads = add_stmt_reads(st, reads);
            let is_sink_stmt = matches!(
                st,
                Statement::Declaration { .. } | Statement::Return { .. } | Statement::Assert {
                    ..
                } | Statement::IfThenElse { .. }
            );
            if is_sink_stmt {
                sreads = add_stmt_reads(st, sreads);
            }
            proof {
                assert forall|v: int|
                    0 <= v < n implies (reads@[v] == scan_upto(
                    *cfg,
                    bi as int,
                    si as int + 1,
                    reads_pred(v),
                )) by {
                    lemma_scan_step(*cfg, bi as int, si as int, reads_pred(v));
                    assert(reads@[v] == (reads0[v] || stmt_reads(*st).contains(v)));
                }
                assert forall|v: int|
                    0 <= v < n implies (sreads@[v] == scan_upto(
                    *cfg,
                    bi as int,
                    si as int + 1,
                    sink_read_pred(v),
                )) by {
                    lemma_scan_step(*cfg, bi as int, si as int, sink_read_pred(v));
                    if is_sink_stmt {
                        assert(sreads@[v] == (sreads0[v] || stmt_reads(*st).contains(v)));
                        assert(stmt_is_syntactic_sink(*st));
                    } else {
                        assert(sreads@[v] == sreads0[v]);
                        assert(!stmt_is_syntactic_sink(*st));
                    }
                }
            }
            si = si + 1;
        }
        proof {
            assert forall|v: int|
                0 <= v < n implies (reads@[v] == scan_upto(
                *cfg,
                bi as int + 1,
                0,
                reads_pred(v),
            )) by {
                lemma_scan_block(*cfg, bi as int, reads_pred(v));
            }
            assert forall|v: int|
                0 <= v < n implies (sreads@[v] == scan_upto(
                *cfg,
                bi as int + 1,
                0,
                sink_read_pred(v),
            )) by {
                lemma_scan_block(*cfg, bi as int, sink_read_pred(v));
            }
        }
        bi = bi + 1;
    }

    // The input and output signals.
    let mut exported = bitset_new(n);
    let mut v: usize = 0;
    while v < n
        invariant
            cfg.wf(),
            n == cfg.spec_n_vars(),
            v <= n,
            exported@.len() == n,
            forall|w: int| 0 <= w < v ==> (exported@[w] == is_exported_var(*cfg, w)),
            forall|w: int| v <= w < n ==> !exported@[w],
        decreases n - v,
    {
        match &cfg.declarations[v] {
            Some(d) => {
                if matches!(
                    d.kind,
                    crate::ir::VariableKind::Input | crate::ir::VariableKind::Output
                ) {
                    exported[v] = true;
                }
            },
            None => {},
        }
        v = v + 1;
    }

    // Everything tainted by an input or output signal.
    let mut etaint = bitset_new(n);
    let mut x: usize = 0;
    while x < n
        invariant
            cfg.wf(),
            n == cfg.spec_n_vars(),
            ta.matches(*cfg),
            x <= n,
            exported@.len() == n,
            forall|w: int| 0 <= w < n ==> (exported@[w] == is_exported_var(*cfg, w)),
            etaint@.len() == n,
            forall|w: int|
                0 <= w < n ==> (etaint@[w] == exists|y: int|
                    0 <= y < x && is_exported_var(*cfg, y) && #[trigger] multi_step_taint_spec(
                        ta.graph,
                        y,
                        w,
                    )),
        decreases n - x,
    {
        if exported[x] {
            let m = ta.multi_step_taint(x);
            let ghost e0 = etaint@;
            etaint = bitset_or(etaint, &m);
            proof {
                assert forall|w: int|
                    0 <= w < n implies (etaint@[w] == exists|y: int|
                    0 <= y < x + 1 && is_exported_var(*cfg, y) && #[trigger] multi_step_taint_spec(
                        ta.graph,
                        y,
                        w,
                    )) by {
                    if etaint@[w] {
                        if e0[w] {
                            let y = choose|y: int|
                                0 <= y < x && is_exported_var(*cfg, y)
                                    && #[trigger] multi_step_taint_spec(ta.graph, y, w);
                            assert(0 <= y < x + 1 && is_exported_var(*cfg, y)
                                && multi_step_taint_spec(ta.graph, y, w));
                        } else {
                            assert(multi_step_taint_spec(ta.graph, x as int, w));
                            assert(is_exported_var(*cfg, x as int) && multi_step_taint_spec(
                                ta.graph,
                                x as int,
                                w,
                            ));
                            assert(exists|y: int|
                                0 <= y < x + 1 && is_exported_var(*cfg, y)
                                    && #[trigger] multi_step_taint_spec(ta.graph, y, w));
                        }
                    } else {
                        if exists|y: int|
                            0 <= y < x + 1 && is_exported_var(*cfg, y)
                                && #[trigger] multi_step_taint_spec(ta.graph, y, w) {
                            let y = choose|y: int|
                                0 <= y < x + 1 && is_exported_var(*cfg, y)
                                    && #[trigger] multi_step_taint_spec(ta.graph, y, w);
                            if y < x {
                                assert(e0[w]);
                            } else {
                                assert(m@[w]);
                            }
                            assert(false);
                        }
                    }
                }
            }
        } else {
            proof {
                assert forall|w: int|
                    0 <= w < n implies (etaint@[w] == exists|y: int|
                    0 <= y < x + 1 && is_exported_var(*cfg, y) && #[trigger] multi_step_taint_spec(
                        ta.graph,
                        y,
                        w,
                    )) by {
                    if !etaint@[w] {
                        if exists|y: int|
                            0 <= y < x + 1 && is_exported_var(*cfg, y)
                                && #[trigger] multi_step_taint_spec(ta.graph, y, w) {
                            let y = choose|y: int|
                                0 <= y < x + 1 && is_exported_var(*cfg, y)
                                    && #[trigger] multi_step_taint_spec(ta.graph, y, w);
                            assert(y < x);
                            assert(false);
                        }
                    }
                }
            }
        }
        x = x + 1;
    }
    proof {
        assert forall|w: int|
            0 <= w < n implies (etaint@[w] == in_exported_taint(*cfg, ta.graph, w)) by {
            if etaint@[w] {
                let y = choose|y: int|
                    0 <= y < n && is_exported_var(*cfg, y) && #[trigger] multi_step_taint_spec(
                        ta.graph,
                        y,
                        w,
                    );
                assert(in_exported_taint(*cfg, ta.graph, w));
            }
            if in_exported_taint(*cfg, ta.graph, w) {
                let y = choose|y: int|
                    is_exported_var(*cfg, y) && #[trigger] multi_step_taint_spec(ta.graph, y, w);
                assert(0 <= y < n);
            }
        }
    }

    // The sink set.
    let mut sinks = bitset_new(n);
    let mut sx: usize = 0;
    while sx < n
        invariant
            cfg.wf(),
            n == cfg.spec_n_vars(),
            ta.matches(*cfg),
            ca.matches(*cfg),
            sx <= n,
            etaint@.len() == n,
            forall|w: int| 0 <= w < n ==> (etaint@[w] == in_exported_taint(*cfg, ta.graph, w)),
            sinks@.len() == n,
            forall|w: int|
                0 <= w < n ==> (sinks@[w] == exists|y: int|
                    0 <= y < sx && #[trigger] in_exported_taint(*cfg, ta.graph, y) && (reaches(
                        ca.graph,
                        y,
                        w,
                    ) || (w == y && exists|t: int| reaches(ca.graph, y, t)))),
        decreases n - sx,
    {
        if etaint[sx] {
            let m = ca.multi_step_constraint(sx);
            if bitset_any(&m) {
                let ghost s0 = sinks@;
                let sinks1 = bitset_or(sinks, &m);
                sinks = sinks1;
                let ghost s1 = sinks@;
                sinks[sx] = true;
                proof {
                    let t0 = choose|t: int| 0 <= t < m@.len() && m@[t];
                    assert(reaches(ca.graph, sx as int, t0));
                    assert forall|w: int|
                        0 <= w < n implies (sinks@[w] == exists|y: int|
                        0 <= y < sx + 1 && #[trigger] in_exported_taint(*cfg, ta.graph, y) && (
                        reaches(ca.graph, y, w) || (w == y && exists|t: int|
                            reaches(ca.graph, y, t)))) by {
                        if sinks@[w] {
                            if w == sx as int {
                                assert(in_exported_taint(*cfg, ta.graph, sx as int) && (w == sx
                                    as int && exists|t: int| reaches(ca.graph, sx as int, t)));
                                assert(exists|y: int|
                                    0 <= y < sx + 1 && #[trigger] in_exported_taint(
                                        *cfg,
                                        ta.graph,
                                        y,
                                    ) && (reaches(ca.graph, y, w) || (w == y && exists|t: int|
                                        reaches(ca.graph, y, t))));
                            } else if s0[w] {
                                let y = choose|y: int|
                                    0 <= y < sx && #[trigger] in_exported_taint(
                                        *cfg,
                                        ta.graph,
                                        y,
                                    ) && (reaches(ca.graph, y, w) || (w == y && exists|t: int|
                                        reaches(ca.graph, y, t)));
                                assert(exists|y2: int|
                                    0 <= y2 < sx + 1 && #[trigger] in_exported_taint(
                                        *cfg,
                                        ta.graph,
                                        y2,
                                    ) && (reaches(ca.graph, y2, w) || (w == y2 && exists|t: int|
                                        reaches(ca.graph, y2, t))));
                            } else {
                                assert(m@[w]);
                                assert(reaches(ca.graph, sx as int, w));
                                assert(in_exported_taint(*cfg, ta.graph, sx as int) && reaches(
                                    ca.graph,
                                    sx as int,
                                    w,
                                ));
                                assert(exists|y: int|
                                    0 <= y < sx + 1 && #[trigger] in_exported_taint(
                                        *cfg,
                                        ta.graph,
                                        y,
                                    ) && (reaches(ca.graph, y, w) || (w == y && exists|t: int|
                                        reaches(ca.graph, y, t))));
                            }
                        } else {
                            if exists|y: int|
                                0 <= y < sx + 1 && #[trigger] in_exported_taint(
                                    *cfg,
                                    ta.graph,
                                    y,
                                ) && (reaches(ca.graph, y, w) || (w == y && exists|t: int|
                                    reaches(ca.graph, y, t))) {
                                let y = choose|y: int|
                                    0 <= y < sx + 1 && #[trigger] in_exported_taint(
                                        *cfg,
                                        ta.graph,
                                        y,
                                    ) && (reaches(ca.graph, y, w) || (w == y && exists|t: int|
                                        reaches(ca.graph, y, t)));
                                if y < sx {
                                    assert(s0[w]);
                                } else {
                                    assert(y == sx as int);
                                    if reaches(ca.graph, y, w) {
                                        crate::graph::lemma_reaches_range(ca.graph, y, w);
                                        assert(m@[w]);
                                        assert(s1[w]);
                                    } else {
                                        assert(w == sx as int);
                                    }
                                }
                                assert(false);
                            }
                        }
                    }
                }
            } else {
                proof {
                    assert forall|t: int| 0 <= t < n implies !reaches(ca.graph, sx as int, t) by {
                        assert(!m@[t]);
                    }
                    assert forall|w: int|
                        0 <= w < n implies (sinks@[w] == exists|y: int|
                        0 <= y < sx + 1 && #[trigger] in_exported_taint(*cfg, ta.graph, y) && (
                        reaches(ca.graph, y, w) || (w == y && exists|t: int|
                            reaches(ca.graph, y, t)))) by {
                        if !sinks@[w] {
                            if exists|y: int|
                                0 <= y < sx + 1 && #[trigger] in_exported_taint(
                                    *cfg,
                                    ta.graph,
                                    y,
                                ) && (reaches(ca.graph, y, w) || (w == y && exists|t: int|
                                    reaches(ca.graph, y, t))) {
                                let y = choose|y: int|
                                    0 <= y < sx + 1 && #[trigger] in_exported_taint(
                                        *cfg,
                                        ta.graph,
                                        y,
                                    ) && (reaches(ca.graph, y, w) || (w == y && exists|t: int|
                                        reaches(ca.graph, y, t)));
                                if y == sx as int {
                                    if reaches(ca.graph, y, w) {
                                        crate::graph::lemma_reaches_range(ca.graph, y, w);
                                    } else {
                                        let t = choose|t: int| reaches(ca.graph, y, t);
                                        crate::graph::lemma_reaches_range(ca.graph, y, t);
                                    }
                                }
                                assert(false);
                            }
                        }
                    }
                }
            }
        } else {
            proof {
                assert forall|w: int|
                    0 <= w < n implies (sinks@[w] == exists|y: int|
                    0 <= y < sx + 1 && #[trigger] in_exported_taint(*cfg, ta.graph, y) && (
                    reaches(ca.graph, y, w) || (w == y && exists|t: int|
                        reaches(ca.graph, y, t)))) by {
                    if !sinks@[w] {
                        if exists|y: int|
                            0 <= y < sx + 1 && #[trigger] in_exported_taint(*cfg, ta.graph, y)
                                && (reaches(ca.graph, y, w) || (w == y && exists|t: int|
                                reaches(ca.graph, y, t))) {
                            let y = choose|y: int|
                                0 <= y < sx + 1 && #[trigger] in_exported_taint(
                                    *cfg,
                                    ta.graph,
                                    y,
                                ) && (reaches(ca.graph, y, w) || (w == y && exists|t: int|
                                    reaches(ca.graph, y, t)));
                            assert(y < sx);
                            assert(false);
                        }
                    }
                }
            }
        }
        sx = sx + 1;
    }
    let sinks1 = bitset_or(sinks, &exported);
    sinks = bitset_or(sinks1, &sreads);
    proof {
        assert forall|w: int|
            0 <= w < n implies (sinks@[w] == is_sink(*cfg, ta.graph, ca.graph, w)) by {
            if sinks@[w] && !is_sink(*cfg, ta.graph, ca.graph, w) {
                if exists|y: int|
                    0 <= y < n && #[trigger] in_exported_taint(*cfg, ta.graph, y) && (reaches(
                        ca.graph,
                        y,
                        w,
                    ) || (w == y && exists|t: int| reaches(ca.graph, y, t))) {
                    let y = choose|y: int|
                        0 <= y < n && #[trigger] in_exported_taint(*cfg, ta.graph, y) && (
                        reaches(ca.graph, y, w) || (w == y && exists|t: int|
                            reaches(ca.graph, y, t)));
                    assert(in_constraint_sinks(*cfg, ta.graph, ca.graph, w));
                }
                assert(false);
            }
            if is_sink(*cfg, ta.graph, ca.graph, w) && !sinks@[w] {
                if in_constraint_sinks(*cfg, ta.graph, ca.graph, w) {
                    let y = choose|y: int|
                        #[trigger] in_exported_taint(*cfg, ta.graph, y) && (reaches(
                            ca.graph,
                            y,
                            w,
                        ) || (w == y && exists|t: int| reaches(ca.graph, y, t)));
                    let z = choose|z: int|
                        is_exported_var(*cfg, z) && #[trigger] multi_step_taint_spec(
                            ta.graph,
                            z,
                            y,
                        );
                    if reaches(ta.graph, z, y) {
                        crate::graph::lemma_reaches_range(ta.graph, z, y);
                    }
                    assert(0 <= y < n);
                }
                assert(false);
            }
        }
    }

    // The variable pass: one report per definition that is unread or
    // side-effect free.
    let mut reports: Vec<Report> = Vec::new();
    let mut reported = bitset_new(n);
    let nd = ta.defs.len();
    let mut k: usize = 0;
    proof {
        lemma_definitions_wf(*cfg);
    }
    while k < nd
        invariant
            cfg.wf(),
            n == cfg.spec_n_vars(),
            ta.matches(*cfg),
            ca.matches(*cfg),
            k <= nd,
            nd == cfg_definitions(*cfg).len(),
            reads@.len() == n,
            forall|w: int| 0 <= w < n ==> (reads@[w] == cfg_reads_var(*cfg, w)),
            sinks@.len() == n,
            forall|w: int| 0 <= w < n ==> (sinks@[w] == is_sink(*cfg, ta.graph, ca.graph, w)),
            reported@.len() == n,
            forall|w: int|
                0 <= w < n ==> (reported@[w] == exists|i: int|
                    0 <= i < k && (#[trigger] cfg_definitions(*cfg)[i]).var as int == w
                        && def_reported(*cfg, ta.graph, ca.graph, cfg_definitions(*cfg)[i])),
            rv(reports@) == wv(*cfg, var_warnings_upto(*cfg, ta.graph, ca.graph, k as int)),
        decreases nd - k,
    {
        let d = ta.defs[k];
        proof {
            lemma_definitions_wf(*cfg);
            assert(d == cfg_definitions(*cfg)[k as int]);
            assert(d.var < n);
        }
        let ghost reports0 = reports@;
        let ghost reported0 = reported@;
        let ghost dw = def_warning(*cfg, ta.graph, ca.graph, d);
        let is_read = reads[d.var];
        proof {
            assert(is_read == cfg_reads_var(*cfg, d.var as int));
        }
        if !is_read {
            let isp = cfg.is_parameter(d.var);
            if isp {
                reports.push(build_unused_param(cfg, &d));
                proof {
                    assert(dw =~= seq![Warning::UnusedParameter { var: d.var, meta: d.meta }]);
                }
            } else {
                reports.push(build_unused_variable(cfg, &d));
                proof {
                    assert(dw =~= seq![Warning::UnusedVariable { var: d.var, meta: d.meta }]);
                }
            }
            reported[d.var] = true;
        } else {
            let t = ta.taints_any(d.var, &sinks);
            proof {
                assert(t == taints_sink(*cfg, ta.graph, ca.graph, d.var as int)) by {
                    if t {
                        let w = choose|w: int|
                            0 <= w < ta.graph.n() && multi_step_taint_spec(
                                ta.graph,
                                d.var as int,
                                w,
                            ) && sinks@[w];
                        assert(0 <= w < n && multi_step_taint_spec(ta.graph, d.var as int, w)
                            && is_sink(*cfg, ta.graph, ca.graph, w));
                    }
                    if taints_sink(*cfg, ta.graph, ca.graph, d.var as int) {
                        let w = choose|w: int|
                            0 <= w < n && #[trigger] multi_step_taint_spec(
                                ta.graph,
                                d.var as int,
                                w,
                            ) && is_sink(*cfg, ta.graph, ca.graph, w);
                        assert(sinks@[w]);
                    }
                }
            }
            if !t {
                let isp = cfg.is_parameter(d.var);
                if isp {
                    reports.push(build_param_without_side_effect(cfg, &d));
                    proof {
                        assert(dw =~= seq![
                            Warning::ParamWithoutSideEffects { var: d.var, meta: d.meta },
                        ]);
                    }
                } else {
                    reports.push(build_variable_without_side_effect(cfg, &d));
                    proof {
                        assert(dw =~= seq![
                            Warning::VariableWithoutSideEffects { var: d.var, meta: d.meta },
                        ]);
                    }
                }
                reported[d.var] = true;
            } else {
                proof {
                    assert(dw =~= Seq::<Warning>::empty());
                }
            }
        }
        proof {
            let up0 = var_warnings_upto(*cfg, ta.graph, ca.graph, k as int);
            let up1 = var_warnings_upto(*cfg, ta.graph, ca.graph, k as int + 1);
            assert(up1 == up0 + dw);
            assert(rv(reports0) == wv(*cfg, up0));
            assert(rv(reports0).len() == up0.len());
            assert(reports@.len() == up1.len());
            assert forall|i: int| 0 <= i < reports@.len() implies rv(reports@)[i] == wv(
                *cfg,
                up1,
            )[i] by {
                assert(rv(reports@)[i] == reports@[i]@);
                assert(wv(*cfg, up1)[i] == warning_view(*cfg, up1[i]));
                if i < reports0.len() {
                    assert(reports@[i] == reports0[i]);
                    assert(rv(reports0)[i] == reports0[i]@);
                    assert(wv(*cfg, up0)[i] == warning_view(*cfg, up0[i]));
                    assert(up1[i] == up0[i]);
                } else {
                    assert(up1[i] == dw[0]);
                }
            }
            assert(rv(reports@) =~= wv(*cfg, up1));
            assert forall|w: int|
                0 <= w < n implies (reported@[w] == exists|i: int|
                0 <= i < k + 1 && (#[trigger] cfg_definitions(*cfg)[i]).var as int == w
                    && def_reported(*cfg, ta.graph, ca.graph, cfg_definitions(*cfg)[i])) by {
                if reported@[w] {
                    if reported0[w] {
                        let i = choose|i: int|
                            0 <= i < k && (#[trigger] cfg_definitions(*cfg)[i]).var as int == w
                                && def_reported(
                                *cfg,
                                ta.graph,
                                ca.graph,
                                cfg_definitions(*cfg)[i],
                            );
                        assert(exists|i2: int|
                            0 <= i2 < k + 1 && (#[trigger] cfg_definitions(*cfg)[i2]).var as int
                                == w && def_reported(
                                *cfg,
                                ta.graph,
                                ca.graph,
                                cfg_definitions(*cfg)[i2],
                            ));
                    } else {
                        assert(w == d.var as int);
                        assert(def_reported(*cfg, ta.graph, ca.graph, d));
                        assert(cfg_definitions(*cfg)[k as int].var as int == w && def_reported(
                            *cfg,
                            ta.graph,
                            ca.graph,
                            cfg_definitions(*cfg)[k as int],
                        ));
                        assert(exists|i2: int|
                            0 <= i2 < k + 1 && (#[trigger] cfg_definitions(*cfg)[i2]).var as int
                                == w && def_reported(
                                *cfg,
                                ta.graph,
                                ca.graph,
                                cfg_definitions(*cfg)[i2],
                            ));
                    }
                } else {
                    if exists|i: int|
                        0 <= i < k + 1 && (#[trigger] cfg_definitions(*cfg)[i]).var as int == w
                            && def_reported(*cfg, ta.graph, ca.graph, cfg_definitions(*cfg)[i]) {
                        let i = choose|i: int|
                            0 <= i < k + 1 && (#[trigger] cfg_definitions(*cfg)[i]).var as int
                                == w && def_reported(
                                *cfg,
                                ta.graph,
                                ca.graph,
                                cfg_definitions(*cfg)[i],
                            );
                        if i < k {
                            assert(reported0[w]);
                        } else {
                            assert(w == d.var as int);
                            assert(reported@[w]);
                        }
                        assert(false);
                    }
                }
            }
        }
        k = k + 1;
    }

    // The signal pass: signals not already reported, unread or
    // unconstrained.
    let mut v3: usize = 0;
    while v3 < n
        invariant
            cfg.wf(),
            n == cfg.spec_n_vars(),
            ta.matches(*cfg),
            ca.matches(*cfg),
            v3 <= n,
            reads@.len() == n,
            forall|w: int| 0 <= w < n ==> (reads@[w] == cfg_reads_var(*cfg, w)),
            reported@.len() == n,
            forall|w: int|
                0 <= w < n ==> (reported@[w] == var_reported(*cfg, ta.graph, ca.graph, w)),
            rv(reports@) == wv(
                *cfg,
                var_warnings_upto(
                    *cfg,
                    ta.graph,
                    ca.graph,
                    cfg_definitions(*cfg).len() as int,
                ) + signal_warnings_upto(*cfg, ta.graph, ca.graph, v3 as int),
            ),
        decreases n - v3,
    {
        let ghost sw = signal_warning(*cfg, ta.graph, ca.graph, v3 as int);
        let ghost reports1 = reports@;
        match &cfg.declarations[v3] {
            Some(decl) => {
                let is_sig = matches!(
                    decl.kind,
                    crate::ir::VariableKind::Intermediate | crate::ir::VariableKind::Input
                        | crate::ir::VariableKind::Output
                );
                proof {
                    assert(is_sig == is_signal_var(*cfg, v3 as int));
                }
                if is_sig && !reported[v3] {
                    if !reads[v3] {
                        reports.push(build_unused_signal(cfg, decl));
                        proof {
                            assert(sw == seq![Warning::UnusedSignal { var: v3 }]);
                        }
                    } else {
                        let t = ta.taints_any(v3, ca.constrained_variables());
                        proof {
                            assert(t == taints_constrained(*cfg, ta.graph, v3 as int)) by {
                                if t {
                                    let w = choose|w: int|
                                        0 <= w < ta.graph.n() && multi_step_taint_spec(
                                            ta.graph,
                                            v3 as int,
                                            w,
                                        ) && ca.occurs@[w];
                                    assert(0 <= w < n && multi_step_taint_spec(
                                        ta.graph,
                                        v3 as int,
                                        w,
                                    ) && cfg_constrained(*cfg, w));
                                }
                                if taints_constrained(*cfg, ta.graph, v3 as int) {
                                    let w = choose|w: int|
                                        0 <= w < n && #[trigger] multi_step_taint_spec(
                                            ta.graph,
                                            v3 as int,
                                            w,
                                        ) && cfg_constrained(*cfg, w);
                                    assert(ca.occurs@[w]);
                                }
                            }
                        }
                        if !t {
                            reports.push(build_unconstrained_signal(cfg, decl));
                            proof {
                                assert(sw == seq![Warning::UnconstrainedSignal { var: v3 }]);
                            }
                        } else {
                            proof {
                                assert(sw =~= Seq::<Warning>::empty());
                            }
                        }
                    }
                } else {
                    proof {
                        assert(sw =~= Seq::<Warning>::empty());
                    }
                }
            },
            None => {
                proof {
                    assert(!is_signal_var(*cfg, v3 as int));
                    assert(sw =~= Seq::<Warning>::empty());
                }
            },
        }
        proof {
            assert(signal_warnings_upto(*cfg, ta.graph, ca.graph, v3 as int + 1)
                == signal_warnings_upto(*cfg, ta.graph, ca.graph, v3 as int) + sw);
            let vfull = var_warnings_upto(
                *cfg,
                ta.graph,
                ca.graph,
                cfg_definitions(*cfg).len() as int,
            );
            let up0 = vfull + signal_warnings_upto(*cfg, ta.graph, ca.graph, v3 as int);
            let up1 = vfull + signal_warnings_upto(*cfg, ta.graph, ca.graph, v3 as int + 1);
            assert(up1 =~= up0 + sw);
            assert(rv(reports1) == wv(*cfg, up0));
            assert(rv(reports1).len() == reports1.len());
            assert(wv(*cfg, up0).len() == up0.len());
            assert(reports1.len() == up0.len());
            assert(reports@.len() == up1.len());
            assert forall|i: int| 0 <= i < reports@.len() implies rv(reports@)[i] == wv(
                *cfg,
                up1,
            )[i] by {
                assert(rv(reports@)[i] == reports@[i]@);
                assert(wv(*cfg, up1)[i] == warning_view(*cfg, up1[i]));
                if i < reports1.len() {
                    assert(reports@[i] == reports1[i]);
                    assert(rv(reports1)[i] == reports1[i]@);
                    assert(wv(*cfg, up0)[i] == warning_view(*cfg, up0[i]));
                    assert(up1[i] == up0[i]);
                } else {
                    assert(up1[i] == sw[0]);
                }
            }
            assert(rv(reports@) =~= wv(*cfg, up1));
        }
        v3 = v3 + 1;
    }

    proof {
        assert(taint_graph_matches(*cfg, ta.graph));
        assert(constraint_graph_matches(*cfg, ca.graph));
        assert(rv(reports@) == expected_report_views(*cfg, ta.graph, ca.graph));
        assert(analysis_result_ok(*cfg, reports@));
    }
    reports
}

// ---------------------------------------------------------------------
// Laws of the analysis.
// ---------------------------------------------------------------------

/// Every input or output signal is a sink.
pub proof fn lemma_exported_signals_are_sinks(cfg: Cfg, gt: Graph, gc: Graph, v: int)
    requires
        is_exported_var(cfg, v),
    ensures
        is_sink(cfg, gt, gc, v),
{
}

/// The variable pass never reports a name that is a sink, as long as the
/// name is read somewhere; an unread sink (an unused input or output
/// signal) is still reported by the signal pass.
pub proof fn lemma_sinks_not_reported(cfg: Cfg, gt: Graph, gc: Graph, d: VariableUse)
    requires
        d.var < cfg.spec_n_vars(),
        is_sink(cfg, gt, gc, d.var as int),
        cfg_reads_var(cfg, d.var as int),
    ensures
        def_warning(cfg, gt, gc, d) == Seq::<Warning>::empty(),
        !def_reported(cfg, gt, gc, d),
{
    assert(multi_step_taint_spec(gt, d.var as int, d.var as int));
    assert(taints_sink(cfg, gt, gc, d.var as int)) by {
        let dv = d.var as int;
        assert(0 <= dv < cfg.spec_n_vars() && multi_step_taint_spec(gt, dv, dv) && is_sink(
            cfg,
            gt,
            gc,
            dv,
        ));
    }
}

/// A signal the variable pass already reported is skipped by the signal
/// pass: no name is reported twice.
pub proof fn lemma_signals_reported_once(cfg: Cfg, gt: Graph, gc: Graph, v: int)
    requires
        var_reported(cfg, gt, gc, v),
    ensures
        signal_warning(cfg, gt, gc, v) == Seq::<Warning>::empty(),
{
}

proof fn lemma_var_warnings_congruent(
    cfg: Cfg,
    gt1: Graph,
    gc1: Graph,
    gt2: Graph,
    gc2: Graph,
    i: int,
)
    requires
        forall|d: VariableUse|
            #[trigger] def_warning(cfg, gt1, gc1, d) == def_warning(cfg, gt2, gc2, d),
    ensures
        var_warnings_upto(cfg, gt1, gc1, i) == var_warnings_upto(cfg, gt2, gc2, i),
    decreases i,
{
    if i > 0 {
        lemma_var_warnings_congruent(cfg, gt1, gc1, gt2, gc2, i - 1);
    }
}

proof fn lemma_signal_warnings_congruent(
    cfg: Cfg,
    gt1: Graph,
    gc1: Graph,
    gt2: Graph,
    gc2: Graph,
    i: int,
)
    requires
        forall|v: int|
            #[trigger] signal_warning(cfg, gt1, gc1, v) == signal_warning(cfg, gt2, gc2, v),
    ensures
        signal_warnings_upto(cfg, gt1, gc1, i) == signal_warnings_upto(cfg, gt2, gc2, i),
    decreases i,
{
    if i > 0 {
        lemma_signal_warnings_congruent(cfg, gt1, gc1, gt2, gc2, i - 1);
    }
}

/// The reports are a function of the control-flow graph alone: any two
/// graphs that describe the taint and constraint relations of `cfg` give
/// the same report list.
pub proof fn lemma_expected_reports_unique(
    cfg: Cfg,
    gt1: Graph,
    gc1: Graph,
    gt2: Graph,
    gc2: Graph,
)
    requires
        taint_graph_matches(cfg, gt1),
        taint_graph_matches(cfg, gt2),
        constraint_graph_matches(cfg, gc1),
        constraint_graph_matches(cfg, gc2),
    ensures
        expected_report_views(cfg, gt1, gc1) == expected_report_views(cfg, gt2, gc2),
{
    assert forall|a: int, b: int| gt1.edge(a, b) == gt2.edge(a, b) by {
        assert(gt1.edge(a, b) == crate::taint_analysis::cfg_taint_edge(cfg, a, b));
        assert(gt2.edge(a, b) == crate::taint_analysis::cfg_taint_edge(cfg, a, b));
    }
    assert forall|a: int, b: int| gc1.edge(a, b) == gc2.edge(a, b) by {
        assert(gc1.edge(a, b) == crate::constraint_analysis::cfg_constraint_edge(cfg, a, b));
        assert(gc2.edge(a, b) == crate::constraint_analysis::cfg_constraint_edge(cfg, a, b));
    }
    lemma_reaches_congruent(gt1, gt2);
    lemma_reaches_congruent(gc1, gc2);
    assert forall|x: int, w: int|
        #[trigger] multi_step_taint_spec(gt1, x, w) == multi_step_taint_spec(gt2, x, w) by {}
    assert forall|w: int|
        #[trigger] in_exported_taint(cfg, gt1, w) == in_exported_taint(cfg, gt2, w) by {
        if in_exported_taint(cfg, gt1, w) {
            let y = choose|y: int|
                is_exported_var(cfg, y) && #[trigger] multi_step_taint_spec(gt1, y, w);
            assert(multi_step_taint_spec(gt2, y, w));
        }
        if in_exported_taint(cfg, gt2, w) {
            let y = choose|y: int|
                is_exported_var(cfg, y) && #[trigger] multi_step_taint_spec(gt2, y, w);
            assert(multi_step_taint_spec(gt1, y, w));
        }
    }
    assert forall|w: int|
        #[trigger] in_constraint_sinks(cfg, gt1, gc1, w) == in_constraint_sinks(
            cfg,
            gt2,
            gc2,
            w,
        ) by {
        if in_constraint_sinks(cfg, gt1, gc1, w) {
            let y = choose|y: int|
                #[trigger] in_exported_taint(cfg, gt1, y) && (reaches(gc1, y, w) || (w == y
                    && exists|t: int| reaches(gc1, y, t)));
            assert(in_exported_taint(cfg, gt2, y));
            if reaches(gc1, y, w) {
                assert(reaches(gc2, y, w));
            } else {
                let t = choose|t: int| reaches(gc1, y, t);
                assert(reaches(gc2, y, t));
            }
            assert(in_constraint_sinks(cfg, gt2, gc2, w));
        }
        if in_constraint_sinks(cfg, gt2, gc2, w) {
            let y = choose|y: int|
                #[trigger] in_exported_taint(cfg, gt2, y) && (reaches(gc2, y, w) || (w == y
                    && exists|t: int| reaches(gc2, y, t)));
            assert(in_exported_taint(cfg, gt1, y));
            if reaches(gc2, y, w) {
                assert(reaches(gc1, y, w));
            } else {
                let t = choose|t: int| reaches(gc2, y, t);
                assert(reaches(gc1, y, t));
            }
            assert(in_constraint_sinks(cfg, gt1, gc1, w));
        }
    }
    assert forall|v: int|
        #[trigger] taints_sink(cfg, gt1, gc1, v) == taints_sink(cfg, gt2, gc2, v) by {
        if taints_sink(cfg, gt1, gc1, v) {
            let w = choose|w: int|
                0 <= w < cfg.spec_n_vars() && #[trigger] multi_step_taint_spec(gt1, v, w)
                    && is_sink(cfg, gt1, gc1, w);
            assert(multi_step_taint_spec(gt2, v, w) && is_sink(cfg, gt2, gc2, w));
        }
        if taints_sink(cfg, gt2, gc2, v) {
            let w = choose|w: int|
                0 <= w < cfg.spec_n_vars() && #[trigger] multi_step_taint_spec(gt2, v, w)
                    && is_sink(cfg, gt2, gc2, w);
            assert(multi_step_taint_spec(gt1, v, w) && is_sink(cfg, gt1, gc1, w));
        }
    }
    assert forall|v: int|
        #[trigger] taints_constrained(cfg, gt1, v) == taints_constrained(cfg, gt2, v) by {
        if taints_constrained(cfg, gt1, v) {
            let w = choose|w: int|
                0 <= w < cfg.spec_n_vars() && #[trigger] multi_step_taint_spec(gt1, v, w)
                    && cfg_constrained(cfg, w);
            assert(multi_step_taint_spec(gt2, v, w));
        }
        if taints_constrained(cfg, gt2, v) {
            let w = choose|w: int|
                0 <= w < cfg.spec_n_vars() && #[trigger] multi_step_taint_spec(gt2, v, w)
                    && cfg_constrained(cfg, w);
            assert(multi_step_taint_spec(gt1, v, w));
        }
    }
    assert forall|d: VariableUse|
        #[trigger] def_warning(cfg, gt1, gc1, d) == def_warning(cfg, gt2, gc2, d) by {}
    assert forall|v: int|
        #[trigger] var_reported(cfg, gt1, gc1, v) == var_reported(cfg, gt2, gc2, v) by {
        if var_reported(cfg, gt1, gc1, v) {
            let i = choose|i: int|
                0 <= i < cfg_definitions(cfg).len() && (#[trigger] cfg_definitions(
                    cfg,
                )[i]).var as int == v && def_reported(cfg, gt1, gc1, cfg_definitions(cfg)[i]);
            assert(def_reported(cfg, gt2, gc2, cfg_definitions(cfg)[i]));
        }
        if var_reported(cfg, gt2, gc2, v) {
            let i = choose|i: int|
                0 <= i < cfg_definitions(cfg).len() && (#[trigger] cfg_definitions(
                    cfg,
                )[i]).var as int == v && def_reported(cfg, gt2, gc2, cfg_definitions(cfg)[i]);
            assert(def_reported(cfg, gt1, gc1, cfg_definitions(cfg)[i]));
        }
    }
    assert forall|v: int|
        #[trigger] signal_warning(cfg, gt1, gc1, v) == signal_warning(cfg, gt2, gc2, v) by {}
    lemma_var_warnings_congruent(cfg, gt1, gc1, gt2, gc2, cfg_definitions(cfg).len() as int);
    lemma_signal_warnings_congruent(cfg, gt1, gc1, gt2, gc2, cfg.spec_n_vars());
    assert(expected_warnings(cfg, gt1, gc1) == expected_warnings(cfg, gt2, gc2));
}

/// Repeated runs over the same control-flow graph produce the same
/// reports, in the same order.
pub proof fn lemma_analysis_deterministic(cfg: Cfg, r1: Seq<Report>, r2: Seq<Report>)
    requires
        analysis_result_ok(cfg, r1),
        analysis_result_ok(cfg, r2),
    ensures
        r1.map_values(|r: Report| r@) == r2.map_values(|r: Report| r@),
{
    let (gt1, gc1) = choose|gt: Graph, gc: Graph|
        #[trigger] taint_graph_matches(cfg, gt) && #[trigger] constraint_graph_matches(cfg, gc)
            && r1.map_values(|r: Report| r@) == expected_report_views(cfg, gt, gc);
    let (gt2, gc2) = choose|gt: Graph, gc: Graph|
        #[trigger] taint_graph_matches(cfg, gt) && #[trigger] constraint_graph_matches(cfg, gc)
            && r2.map_values(|r: Report| r@) == expected_report_views(cfg, gt, gc);
    lemma_expected_reports_unique(cfg, gt1, gc1, gt2, gc2);
}

} // verus!
