//! The reduced statement and expression language of one template or
//! function, already lowered to a control-flow graph in static single
//! assignment form.
//!
//! Variables are identified by a dense id; the graph carries a name table
//! for messages. The analyses only ever read the graph: they consume the
//! per-statement read sets and definition sites defined here.

use vstd::prelude::*;

use crate::report::FileID;

verus! {

/// Source position of a piece of IR: a byte range in one file of the
/// external file registry.
#[derive(Clone, Copy, Debug)]
pub struct Meta {
    pub file_id: Option<FileID>,
    pub start: usize,
    pub end: usize,
}

/// One occurrence of a variable: its id and where it stands.
#[derive(Clone, Copy, Debug)]
pub struct VariableUse {
    pub var: usize,
    pub meta: Meta,
}

/// What a declared name is.
#[derive(PartialEq, Eq, Structural, Clone, Copy, Debug)]
pub enum VariableKind {
    /// An ordinary imperative variable.
    Variable,
    /// An intermediate signal.
    Intermediate,
    /// An input signal.
    Input,
    /// An output signal.
    Output,
    /// A component: an instance of a template.
    Component,
}

/// Signals are circuit wires; inputs and outputs are visible outside the
/// template.
pub open spec fn is_signal(kind: VariableKind) -> bool {
    kind is Intermediate || kind is Input || kind is Output
}

pub open spec fn is_exported(kind: VariableKind) -> bool {
    kind is Input || kind is Output
}

#[derive(PartialEq, Eq, Structural, Clone, Copy, Debug)]
pub enum UnaryOp {
    Negate,
    Not,
}

#[derive(PartialEq, Eq, Structural, Clone, Copy, Debug)]
pub enum BinaryOp {
    Add,
    Sub,
    Mul,
    ShiftRight,
    BitAnd,
    Less,
    Equal,
}

/// Expressions of the reduced language.
pub enum Expression {
    /// A number literal.
    Literal { value: u64 },
    /// A variable reference.
    Variable { var: usize },
    Unary { op: UnaryOp, operand: Box<Expression> },
    Binary { op: BinaryOp, lhs: Box<Expression>, rhs: Box<Expression> },
    /// An array subscript `base[index]`.
    Subscript { base: Box<Expression>, index: Box<Expression> },
    /// A function or template call.
    Call { name: String, args: Vec<Expression> },
    /// A component access `base.field`.
    Access { base: Box<Expression>, field: String },
}

/// The variables an expression reads.
pub open spec fn expr_reads(e: Expression) -> Set<int>
    decreases e,
{
    match e {
        Expression::Literal { .. } => Set::empty(),
        Expression::Variable { var } => Set::empty().insert(var as int),
        Expression::Unary { operand, .. } => expr_reads(*operand),
        Expression::Binary { lhs, rhs, .. } => expr_reads(*lhs).union(expr_reads(*rhs)),
        Expression::Subscript { base, index } => expr_reads(*base).union(expr_reads(*index)),
        Expression::Call { args, .. } => exprs_reads(args@),
        Expression::Access { base, .. } => expr_reads(*base),
    }
}

/// The variables a sequence of expressions reads.
pub open spec fn exprs_reads(es: Seq<Expression>) -> Set<int>
    decreases es,
{
    if es.len() == 0 {
        Set::empty()
    } else {
        expr_reads(es[0]).union(exprs_reads(es.drop_first()))
    }
}

/// Every variable of the expression has an id below `n`.
pub open spec fn wf_expr(e: Expression, n: int) -> bool
    decreases e,
{
    match e {
        Expression::Literal { .. } => true,
        Expression::Variable { var } => var < n,
        Expression::Unary { operand, .. } => wf_expr(*operand, n),
        Expression::Binary { lhs, rhs, .. } => wf_expr(*lhs, n) && wf_expr(*rhs, n),
        Expression::Subscript { base, index } => wf_expr(*base, n) && wf_expr(*index, n),
        Expression::Call { args, .. } => wf_exprs(args@, n),
        Expression::Access { base, .. } => wf_expr(*base, n),
    }
}

pub open spec fn wf_exprs(es: Seq<Expression>, n: int) -> bool
    decreases es,
{
    if es.len() == 0 {
        true
    } else {
        wf_expr(es[0], n) && wf_exprs(es.drop_first(), n)
    }
}

/// One original-source binding site.
pub struct Declaration {
    pub var: usize,
    pub kind: VariableKind,
    /// Array shape: one expression per dimension, read at declaration
    /// time by the host.
    pub dimensions: Vec<Expression>,
    pub meta: Meta,
}

/// Statements of the reduced language, as they stand in basic blocks after
/// lowering: structured statements have been flattened, so a branch or
/// loop head is represented by its condition alone.
pub enum Statement {
    Declaration { decl: Declaration },
    /// An ordinary assignment `var(access) = rhs`; in SSA form `var` is a
    /// fresh name. `access` holds the subscripts of the written location,
    /// which are read, not written.
    Substitution { var: usize, access: Vec<Expression>, rhs: Expression, meta: Meta },
    /// A φ-join assignment inserted by the SSA transform at a block entry.
    Phi { var: usize, args: Vec<usize>, meta: Meta },
    /// The constraint operator `lhs === rhs`.
    ConstraintEquality { lhs: Expression, rhs: Expression, meta: Meta },
    Return { value: Expression, meta: Meta },
    Assert { value: Expression, meta: Meta },
    /// The condition of a branch or loop head at a block tail.
    IfThenElse { cond: Expression, meta: Meta },
    /// A log call: output that affects neither witness nor constraints.
    LogCall { args: Vec<Expression>, meta: Meta },
}

/// The ids of a φ-argument list, as a set.
pub open spec fn ids_set(args: Seq<usize>) -> Set<int> {
    Set::new(|v: int| exists|i: int| 0 <= i < args.len() && args[i] as int == v)
}

/// The variables a statement reads.
pub open spec fn stmt_reads(st: Statement) -> Set<int> {
    match st {
        Statement::Declaration { decl } => exprs_reads(decl.dimensions@),
        Statement::Substitution { access, rhs, .. } => exprs_reads(access@).union(
            expr_reads(rhs),
        ),
        Statement::Phi { args, .. } => ids_set(args@),
        Statement::ConstraintEquality { lhs, rhs, .. } => expr_reads(lhs).union(
            expr_reads(rhs),
        ),
        Statement::Return { value, .. } => expr_reads(value),
        Statement::Assert { value, .. } => expr_reads(value),
        Statement::IfThenElse { cond, .. } => expr_reads(cond),
        Statement::LogCall { args, .. } => exprs_reads(args@),
    }
}

/// The definition site a statement produces, if any. Only assignments
/// count: a φ-join is synthetic, not a lexical definition site, so the
/// analyses never report one, though it still carries taint.
pub open spec fn stmt_def(st: Statement) -> Option<VariableUse> {
    match st {
        Statement::Substitution { var, meta, .. } => Some(VariableUse { var, meta }),
        _ => None,
    }
}

/// The variable a statement taints, if any: the target of an assignment
/// or φ-join, or the variable a declaration declares (its dimension
/// expressions are read by the host to lay the array out).
pub open spec fn stmt_target(st: Statement) -> Option<int> {
    match st {
        Statement::Declaration { decl } => Some(decl.var as int),
        Statement::Substitution { var, .. } => Some(var as int),
        Statement::Phi { var, .. } => Some(var as int),
        _ => None,
    }
}

/// The taint edges a statement contributes: everything the statement
/// reads taints its target.
pub open spec fn stmt_taint_edge(st: Statement, u: int, v: int) -> bool {
    match stmt_target(st) {
        Some(t) => v == t && stmt_reads(st).contains(u),
        None => false,
    }
}

/// The statement is a constraint: its read set becomes a clique of the
/// constraint graph.
pub open spec fn stmt_is_constraint(st: Statement) -> bool {
    st is ConstraintEquality
}

/// Statements whose operands are sinks by themselves: array dimensions,
/// return values, asserted values and branch conditions matter to the
/// host even when no signal depends on them.
pub open spec fn stmt_is_syntactic_sink(st: Statement) -> bool {
    st is Declaration || st is Return || st is Assert || st is IfThenElse
}

pub open spec fn wf_stmt(st: Statement, n: int) -> bool {
    match st {
        Statement::Declaration { decl } => decl.var < n && wf_exprs(decl.dimensions@, n),
        Statement::Substitution { var, access, rhs, .. } => var < n && wf_exprs(access@, n)
            && wf_expr(rhs, n),
        Statement::Phi { var, args, .. } => var < n && (forall|i: int|
            0 <= i < args@.len() ==> args@[i] < n),
        Statement::ConstraintEquality { lhs, rhs, .. } => wf_expr(lhs, n) && wf_expr(rhs, n),
        Statement::Return { value, .. } => wf_expr(value, n),
        Statement::Assert { value, .. } => wf_expr(value, n),
        Statement::IfThenElse { cond, .. } => wf_expr(cond, n),
        Statement::LogCall { args, .. } => wf_exprs(args@, n),
    }
}

/// A basic block: an ordered list of statements, and the ids of the
/// successor blocks.
pub struct BasicBlock {
    pub stmts: Vec<Statement>,
    pub successors: Vec<usize>,
}

/// The control-flow graph of one template or function, in SSA form.
pub struct Cfg {
    /// Name of the enclosing construct.
    pub name: String,
    /// Name of each variable, by id; its length is the variable count.
    pub names: Vec<String>,
    /// The ordered parameters of the construct.
    pub parameters: Vec<VariableUse>,
    /// The declaration of each declared variable, by id.
    pub declarations: Vec<Option<Declaration>>,
    /// The blocks, keyed by index; edges are indices.
    pub blocks: Vec<BasicBlock>,
}

impl Cfg {
    /// Number of variable ids.
    pub open spec fn spec_n_vars(self) -> int {
        self.names@.len() as int
    }

    #[verifier::when_used_as_spec(spec_n_vars_usize)]
    pub fn n_vars(&self) -> (n: usize)
        ensures
            n as int == self.spec_n_vars(),
    {
        self.names.len()
    }

    pub open spec fn spec_n_vars_usize(&self) -> usize {
        self.names@.len() as usize
    }

    /// Every id mentioned anywhere is in range, and declarations sit at
    /// their own id.
    pub open spec fn wf(self) -> bool {
        let n = self.spec_n_vars();
        &&& self.declarations@.len() == n
        &&& forall|i: int|
            0 <= i < self.parameters@.len() ==> self.parameters@[i].var < n
        &&& forall|i: int|
            0 <= i < n ==> (self.declarations@[i] is Some
                ==> self.declarations@[i]->0.var as int == i && wf_exprs(
                self.declarations@[i]->0.dimensions@,
                n,
            ))
        &&& forall|b: int, s: int|
            0 <= b < self.blocks@.len() && 0 <= s < self.blocks@[b].stmts@.len() ==> wf_stmt(
                self.blocks@[b].stmts@[s],
                n,
            )
        &&& forall|b: int, s: int|
            0 <= b < self.blocks@.len() && 0 <= s < self.blocks@[b].successors@.len()
                ==> self.blocks@[b].successors@[s] < self.blocks@.len()
    }

    /// Whether `var` is a parameter of the construct.
    pub open spec fn spec_is_parameter(self, var: int) -> bool {
        exists|i: int| 0 <= i < self.parameters@.len() && self.parameters@[i].var as int == var
    }

    pub fn is_parameter(&self, var: usize) -> (r: bool)
        ensures
            r == self.spec_is_parameter(var as int),
    {
        let mut i: usize = 0;
        let n = self.parameters.len();
        while i < n
            invariant
                n == self.parameters@.len(),
                i <= n,
                forall|j: int| 0 <= j < i ==> self.parameters@[j].var as int != var as int,
            decreases n - i,
        {
            if self.parameters[i].var == var {
                return true;
            }
            i = i + 1;
        }
        false
    }
}

/// Returns `marks` with the variables `e` reads marked.
pub fn add_expr_reads(e: &Expression, marks: Vec<bool>) -> (r: Vec<bool>)
    requires
        wf_expr(*e, marks@.len() as int),
    ensures
        r@.len() == marks@.len(),
        forall|v: int|
            0 <= v < r@.len() ==> (r@[v] == (marks@[v] || expr_reads(*e).contains(v))),
    decreases *e,
{
    match e {
        Expression::Literal { .. } => marks,
        Expression::Variable { var } => {
            let mut out = marks;
            let ghost before = out@;
            out[*var] = true;
            proof {
                assert forall|v: int| 0 <= v < out@.len() implies (out@[v] == (before[v]
                    || expr_reads(*e).contains(v))) by {
                    if v != *var as int {
                        assert(out@[v] == before[v]);
                    }
                }
            }
            out
        },
        Expression::Unary { operand, .. } => add_expr_reads(operand, marks),
        Expression::Binary { lhs, rhs, .. } => {
            let out = add_expr_reads(lhs, marks);
            add_expr_reads(rhs, out)
        },
        Expression::Subscript { base, index } => {
            let out = add_expr_reads(base, marks);
            add_expr_reads(index, out)
        },
        Expression::Call { args, .. } => add_exprs_reads(args, marks),
        Expression::Access { base, .. } => add_expr_reads(base, marks),
    }
}

/// Returns `marks` with the variables the expressions read marked.
pub fn add_exprs_reads(es: &Vec<Expression>, marks: Vec<bool>) -> (r: Vec<bool>)
    requires
        wf_exprs(es@, marks@.len() as int),
    ensures
        r@.len() == marks@.len(),
        forall|v: int|
            0 <= v < r@.len() ==> (r@[v] == (marks@[v] || exprs_reads(es@).contains(v))),
    decreases es@,
{
    let mut out = marks;
    let n = es.len();
    let mut i: usize = 0;
    while i < n
        invariant
            n == es@.len(),
            i <= n,
            wf_exprs(es@, marks@.len() as int),
            out@.len() == marks@.len(),
            forall|v: int|
                0 <= v < out@.len() ==> (out@[v] == (marks@[v] || exprs_reads(
                    es@.take(i as int),
                ).contains(v))),
        decreases n - i,
    {
        proof {
            lemma_wf_exprs_index(es@, marks@.len() as int, i as int);
            lemma_exprs_reads_take(es@, i as int);
        }
        let ghost before = out@;
        out = add_expr_reads(&es[i], out);
        proof {
            assert forall|v: int| 0 <= v < out@.len() implies (out@[v] == (marks@[v]
                || exprs_reads(es@.take(i + 1)).contains(v))) by {
                assert(out@[v] == (before[v] || expr_reads(es@[i as int]).contains(v)));
            }
        }
        i = i + 1;
    }
    proof {
        assert(es@.take(n as int) =~= es@);
    }
    out
}

/// Each element of a well-formed list is well-formed.
pub proof fn lemma_wf_exprs_index(es: Seq<Expression>, n: int, i: int)
    requires
        wf_exprs(es, n),
        0 <= i < es.len(),
    ensures
        wf_expr(es[i], n),
    decreases es,
{
    if i > 0 {
        lemma_wf_exprs_index(es.drop_first(), n, i - 1);
    }
}

/// Reading one more expression of the list adds exactly its reads.
pub proof fn lemma_exprs_reads_take(es: Seq<Expression>, i: int)
    requires
        0 <= i < es.len(),
    ensures
        exprs_reads(es.take(i + 1)) =~= exprs_reads(es.take(i)).union(expr_reads(es[i])),
    decreases i,
{
    if i == 0 {
        assert(es.take(1).drop_first() =~= Seq::<Expression>::empty());
        assert(es.take(1)[0] == es[0]);
        assert(es.take(0) =~= Seq::<Expression>::empty());
    } else {
        lemma_exprs_reads_take(es.drop_first(), i - 1);
        assert(es.take(i + 1).drop_first() =~= es.drop_first().take(i));
        assert(es.take(i).drop_first() =~= es.drop_first().take(i - 1));
        assert(es.take(i + 1)[0] == es[0]);
        assert(es.take(i)[0] == es[0]);
        assert(es.drop_first()[i - 1] == es[i]);
        assert(exprs_reads(es.take(i + 1)) == expr_reads(es[0]).union(
            exprs_reads(es.drop_first().take(i)),
        ));
    }
}

/// Returns `marks` with the φ-argument ids marked.
fn add_ids(args: &Vec<usize>, marks: Vec<bool>) -> (r: Vec<bool>)
    requires
        forall|i: int| 0 <= i < args@.len() ==> args@[i] < marks@.len(),
    ensures
        r@.len() == marks@.len(),
        forall|v: int|
            0 <= v < r@.len() ==> (r@[v] == (marks@[v] || ids_set(args@).contains(v))),
{
    let mut out = marks;
    let n = args.len();
    let mut i: usize = 0;
    while i < n
        invariant
            n == args@.len(),
            i <= n,
            out@.len() == marks@.len(),
            forall|j: int| 0 <= j < n ==> args@[j] < out@.len(),
            forall|v: int|
                0 <= v < out@.len() ==> (out@[v] == (marks@[v] || exists|j: int|
                    0 <= j < i && args@[j] as int == v)),
        decreases n - i,
    {
        let ghost before = out@;
        let a = args[i];
        out[a] = true;
        proof {
            assert forall|v: int| 0 <= v < out@.len() implies (out@[v] == (marks@[v]
                || exists|j: int| 0 <= j < i + 1 && args@[j] as int == v)) by {
                if v == a as int {
                    assert(args@[i as int] as int == v);
                    assert(exists|j: int| 0 <= j < i + 1 && args@[j] as int == v);
                } else {
                    assert(out@[v] == before[v]);
                    if exists|j: int| 0 <= j < i + 1 && args@[j] as int == v {
                        let j = choose|j: int|
                            0 <= j < i + 1 && #[trigger] (args@[j] as int) == v;
                        assert(j < i);
                        assert(exists|j: int| 0 <= j < i && args@[j] as int == v);
                    }
                }
            }
        }
        i = i + 1;
    }
    proof {
        assert forall|v: int| 0 <= v < out@.len() implies (out@[v] == (marks@[v] || ids_set(
            args@,
        ).contains(v))) by {
            if ids_set(args@).contains(v) {
                let j = choose|j: int|
                    0 <= j < args@.len() && #[trigger] (args@[j] as int) == v;
                assert(exists|j: int| 0 <= j < n && args@[j] as int == v);
            }
            if exists|j: int| 0 <= j < n && #[trigger] (args@[j] as int) == v {
                assert(ids_set(args@).contains(v));
            }
        }
    }
    out
}

/// Returns `marks` with the variables `st` reads marked.
pub fn add_stmt_reads(st: &Statement, marks: Vec<bool>) -> (r: Vec<bool>)
    requires
        wf_stmt(*st, marks@.len() as int),
    ensures
        r@.len() == marks@.len(),
        forall|v: int|
            0 <= v < r@.len() ==> (r@[v] == (marks@[v] || stmt_reads(*st).contains(v))),
{
    match st {
        Statement::Declaration { decl } => add_exprs_reads(&decl.dimensions, marks),
        Statement::Substitution { access, rhs, .. } => {
            let out = add_exprs_reads(access, marks);
            add_expr_reads(rhs, out)
        },
        Statement::Phi { args, .. } => add_ids(args, marks),
        Statement::ConstraintEquality { lhs, rhs, .. } => {
            let out = add_expr_reads(lhs, marks);
            add_expr_reads(rhs, out)
        },
        Statement::Return { value, .. } => add_expr_reads(value, marks),
        Statement::Assert { value, .. } => add_expr_reads(value, marks),
        Statement::IfThenElse { cond, .. } => add_expr_reads(cond, marks),
        Statement::LogCall { args, .. } => add_exprs_reads(args, marks),
    }
}

/// Everything a well-formed statement reads is in range.
pub proof fn lemma_stmt_reads_in_range(st: Statement, n: int)
    requires
        wf_stmt(st, n),
    ensures
        forall|v: int| stmt_reads(st).contains(v) ==> 0 <= v < n,
{
    assert forall|v: int| stmt_reads(st).contains(v) implies 0 <= v < n by {
        match st {
            Statement::Declaration { decl } => {
                lemma_exprs_reads_in_range(decl.dimensions@, n, v);
            },
            Statement::Substitution { access, rhs, .. } => {
                if exprs_reads(access@).contains(v) {
                    lemma_exprs_reads_in_range(access@, n, v);
                } else {
                    lemma_expr_reads_in_range(rhs, n, v);
                }
            },
            Statement::Phi { args, .. } => {},
            Statement::ConstraintEquality { lhs, rhs, .. } => {
                if expr_reads(lhs).contains(v) {
                    lemma_expr_reads_in_range(lhs, n, v);
                } else {
                    lemma_expr_reads_in_range(rhs, n, v);
                }
            },
            Statement::Return { value, .. } => {
                lemma_expr_reads_in_range(value, n, v);
            },
            Statement::Assert { value, .. } => {
                lemma_expr_reads_in_range(value, n, v);
            },
            Statement::IfThenElse { cond, .. } => {
                lemma_expr_reads_in_range(cond, n, v);
            },
            Statement::LogCall { args, .. } => {
                lemma_exprs_reads_in_range(args@, n, v);
            },
        }
    }
}

pub proof fn lemma_expr_reads_in_range(e: Expression, n: int, v: int)
    requires
        wf_expr(e, n),
        expr_reads(e).contains(v),
    ensures
        0 <= v < n,
    decreases e,
{
    match e {
        Expression::Literal { .. } => {},
        Expression::Variable { var } => {},
        Expression::Unary { operand, .. } => {
            lemma_expr_reads_in_range(*operand, n, v);
        },
        Expression::Binary { lhs, rhs, .. } => {
            if expr_reads(*lhs).contains(v) {
                lemma_expr_reads_in_range(*lhs, n, v);
            } else {
                lemma_expr_reads_in_range(*rhs, n, v);
            }
        },
        Expression::Subscript { base, index } => {
            if expr_reads(*base).contains(v) {
                lemma_expr_reads_in_range(*base, n, v);
            } else {
                lemma_expr_reads_in_range(*index, n, v);
            }
        },
        Expression::Call { args, .. } => {
            lemma_exprs_reads_in_range(args@, n, v);
        },
        Expression::Access { base, .. } => {
            lemma_expr_reads_in_range(*base, n, v);
        },
    }
}

pub proof fn lemma_exprs_reads_in_range(es: Seq<Expression>, n: int, v: int)
    requires
        wf_exprs(es, n),
        exprs_reads(es).contains(v),
    ensures
        0 <= v < n,
    decreases es,
{
    if es.len() > 0 {
        if expr_reads(es[0]).contains(v) {
            lemma_expr_reads_in_range(es[0], n, v);
        } else {
            lemma_exprs_reads_in_range(es.drop_first(), n, v);
        }
    }
}

} // verus!
