use crate::ast::{DeclView, ExprView, FileView, StmtView};
use crate::token::TokenView;
use vstd::prelude::*;

verus! {

/// The mathematical value of an [`Operation`](crate::interpreter::Operation):
/// one step of arithmetic or of output. The numbers in it name the results
/// of earlier operations, by their place in the list of operations.
pub enum OperationView {
    Nan,
    Zero,
    Integer(Seq<char>),
    Float(Seq<char>),
    Neg(nat),
    Add(nat, nat),
    Sub(nat, nat),
    Mul(nat, nat),
    Div(nat, nat),
    Rem(nat, nat),
    Print(Seq<nat>),
    Println(Seq<nat>),
}

impl OperationView {
    /// Whether the operation takes only results of the first `count`
    /// operations.
    pub open spec fn reads_below(self, count: nat) -> bool {
        match self {
            OperationView::Nan => true,
            OperationView::Zero => true,
            OperationView::Integer(_) => true,
            OperationView::Float(_) => true,
            OperationView::Neg(a) => a < count,
            OperationView::Add(a, b) => a < count && b < count,
            OperationView::Sub(a, b) => a < count && b < count,
            OperationView::Mul(a, b) => a < count && b < count,
            OperationView::Div(a, b) => a < count && b < count,
            OperationView::Rem(a, b) => a < count && b < count,
            OperationView::Print(args) => forall|i: int|
                0 <= i < args.len() ==> #[trigger] args[i] < count,
            OperationView::Println(args) => forall|i: int|
                0 <= i < args.len() ==> #[trigger] args[i] < count,
        }
    }
}

/// The mathematical state of an evaluation: the value that each name is
/// bound to, and the operations asked for so far. A value is the place of
/// the operation that computes it.
pub struct InterpreterView {
    pub env: Map<Seq<char>, nat>,
    pub ops: Seq<OperationView>,
}

/// The operation that gives the value of a literal: a numeral is read as
/// a floating-point number if it is one by its token or has a `.` in its
/// text, and as an integer otherwise. A string has no value.
pub open spec fn literal_operation(tok: TokenView) -> OperationView {
    match tok {
        TokenView::Integer(text) => if text.contains('.') {
            OperationView::Float(text)
        } else {
            OperationView::Integer(text)
        },
        TokenView::Float(text) => OperationView::Float(text),
        _ => OperationView::Nan,
    }
}

/// The operation that `op` stands for between the values `x` and `y`. Only
/// `+ - * / %` compute; every other token gives no value.
pub open spec fn binary_operation(op: TokenView, x: nat, y: nat) -> OperationView {
    match op {
        TokenView::Add => OperationView::Add(x, y),
        TokenView::Sub => OperationView::Sub(x, y),
        TokenView::Mul => OperationView::Mul(x, y),
        TokenView::Div => OperationView::Div(x, y),
        TokenView::Rem => OperationView::Rem(x, y),
        _ => OperationView::Nan,
    }
}

/// The operation of a call of `fun` with the values `args`: output for
/// the names `print` and `println`; any other call gives no value.
pub open spec fn call_operation(fun: ExprView, args: Seq<nat>) -> OperationView {
    match fun {
        ExprView::Ident { name, .. } => if name == "print"@ {
            OperationView::Print(args)
        } else if name == "println"@ {
            OperationView::Println(args)
        } else {
            OperationView::Nan
        },
        _ => OperationView::Nan,
    }
}

impl InterpreterView {
    /// The state before anything is evaluated.
    pub open spec fn empty() -> InterpreterView {
        InterpreterView { env: Map::empty(), ops: Seq::empty() }
    }

    /// Asks for one more operation. The value is its place.
    pub open spec fn emit(self, op: OperationView) -> (nat, InterpreterView) {
        (self.ops.len(), InterpreterView { ops: self.ops.push(op), ..self })
    }

    /// Binds `name` to `value`. An earlier binding of the name is lost.
    pub open spec fn bind(self, name: Seq<char>, value: nat) -> InterpreterView {
        InterpreterView { env: self.env.insert(name, value), ..self }
    }

    /// Whether every value in the state is computed before it is used:
    /// each operation takes results of earlier operations only, and each
    /// name is bound to the result of an operation of the list.
    pub open spec fn valid(self) -> bool {
        &&& forall|i: int|
            0 <= i < self.ops.len() ==> (#[trigger] self.ops[i]).reads_below(i as nat)
        &&& forall|name: Seq<char>| #[trigger]
            self.env.contains_key(name) ==> self.env[name] < self.ops.len()
    }
}

/// The value of an expression, and the state after its evaluation.
///
/// An unbound name, a `Bad` node and an operator that does not compute
/// give a value of their own that is not a number. The operands of a
/// binary operator and the arguments of a call are evaluated from left to
/// right. What is called is not evaluated.
pub open spec fn eval_expr(e: ExprView, st: InterpreterView) -> (nat, InterpreterView)
    decreases e,
{
    match e {
        ExprView::Bad => st.emit(OperationView::Nan),
        ExprView::Ident { name, .. } => if st.env.contains_key(name) {
            (st.env[name], st)
        } else {
            st.emit(OperationView::Nan)
        },
        ExprView::BasicLit { tok, .. } => st.emit(literal_operation(tok)),
        ExprView::Call { fun, args, .. } => {
            let (values, st1) = eval_args(args, st);
            st1.emit(call_operation(*fun, values))
        },
        ExprView::Unary { op, x } => {
            let (v, st1) = eval_expr(*x, st);
            match op {
                TokenView::Add => (v, st1),
                TokenView::Sub => st1.emit(OperationView::Neg(v)),
                _ => st1.emit(OperationView::Nan),
            }
        },
        ExprView::Binary { x, op, y } => {
            let (xv, st1) = eval_expr(*x, st);
            let (yv, st2) = eval_expr(*y, st1);
            st2.emit(binary_operation(op, xv, yv))
        },
        ExprView::Paren { x, .. } => eval_expr(*x, st),
    }
}

/// The values of the expressions of `args`, evaluated from left to right.
pub open spec fn eval_args(args: Seq<ExprView>, st: InterpreterView) -> (Seq<nat>, InterpreterView)
    decreases args,
{
    if args.len() == 0 {
        (Seq::empty(), st)
    } else {
        let (values, st1) = eval_args(args.drop_last(), st);
        let (v, st2) = eval_expr(args.last(), st1);
        (values.push(v), st2)
    }
}

/// The value of a declaration. A binding binds its name to its value, 0
/// where it has none. A `Bad` node and a function give no value and bind
/// nothing.
pub open spec fn eval_decl(d: DeclView, st: InterpreterView) -> (nat, InterpreterView) {
    match d {
        DeclView::Binding { name, value, .. } => {
            let (v, st1) = match value {
                Some(e) => eval_expr(e, st),
                None => st.emit(OperationView::Zero),
            };
            (v, st1.bind(name, v))
        },
        _ => st.emit(OperationView::Nan),
    }
}

/// The value of a statement. An assignment to a name binds the name to
/// the value. An assignment to anything else gives no value, and its right
/// side is not evaluated.
pub open spec fn eval_stmt(s: StmtView, st: InterpreterView) -> (nat, InterpreterView) {
    match s {
        StmtView::Bad => st.emit(OperationView::Nan),
        StmtView::Decl(d) => eval_decl(d, st),
        StmtView::Expr(e) => eval_expr(e, st),
        StmtView::Assign { ptr, val, .. } => match ptr {
            ExprView::Ident { name, .. } => {
                let (v, st1) = eval_expr(val, st);
                (v, st1.bind(name, v))
            },
            _ => st.emit(OperationView::Nan),
        },
    }
}

/// The statements of `stmts` evaluated in order: the value of the last
/// one, if there is any, and the state after all of them.
pub open spec fn eval_stmts(stmts: Seq<StmtView>, st: InterpreterView) -> (
    Option<nat>,
    InterpreterView,
)
    decreases stmts.len(),
{
    if stmts.len() == 0 {
        (None, st)
    } else {
        let (_, st1) = eval_stmts(stmts.drop_last(), st);
        let (v, st2) = eval_stmt(stmts.last(), st1);
        (Some(v), st2)
    }
}

/// The value of a file: that of its last statement, and 0 for a file
/// without statements.
pub open spec fn eval_file(f: FileView, st: InterpreterView) -> (nat, InterpreterView) {
    match eval_stmts(f.stmts, st) {
        (Some(v), st1) => (v, st1),
        (None, st1) => st1.emit(OperationView::Zero),
    }
}

/// Whether `after` may follow `before` in an evaluation: both are valid,
/// and the operations of `before` stand unchanged at the start of those of
/// `after`.
pub open spec fn extends(before: InterpreterView, after: InterpreterView) -> bool {
    &&& before.valid()
    &&& after.valid()
    &&& before.ops.len() <= after.ops.len()
    &&& after.ops.take(before.ops.len() as int) == before.ops
}

/// One more operation that takes results of the list keeps a valid state
/// valid, and its value is the result of an operation of the list.
proof fn lemma_emit(st: InterpreterView, op: OperationView)
    requires
        st.valid(),
        op.reads_below(st.ops.len()),
    ensures
        extends(st, st.emit(op).1),
        st.emit(op).0 < st.emit(op).1.ops.len(),
        st.emit(op).1.env == st.env,
{
    assert(st.ops.push(op).take(st.ops.len() as int) =~= st.ops);
}

/// What follows a state follows every state that the state follows.
proof fn lemma_extends_trans(a: InterpreterView, b: InterpreterView, c: InterpreterView)
    requires
        extends(a, b),
        extends(b, c),
    ensures
        extends(a, c),
{
    assert(c.ops.take(a.ops.len() as int) =~= b.ops.take(a.ops.len() as int));
}

/// The evaluation of an expression keeps a valid state valid and binds
/// nothing; it adds operations and takes none away; and its value is the
/// result of an operation of the list.
pub proof fn lemma_eval_expr(e: ExprView, st: InterpreterView)
    requires
        st.valid(),
    ensures
        extends(st, eval_expr(e, st).1),
        eval_expr(e, st).1.env == st.env,
        eval_expr(e, st).0 < eval_expr(e, st).1.ops.len(),
    decreases e,
{
    assert(st.ops.take(st.ops.len() as int) =~= st.ops);
    match e {
        ExprView::Bad => {
            lemma_emit(st, OperationView::Nan);
        },
        ExprView::Ident { name, .. } => {
            lemma_emit(st, OperationView::Nan);
        },
        ExprView::BasicLit { tok, .. } => {
            lemma_emit(st, literal_operation(tok));
        },
        ExprView::Call { fun, args, .. } => {
            let (values, st1) = eval_args(args, st);
            lemma_eval_args(args, st);
            lemma_emit(st1, call_operation(*fun, values));
            lemma_extends_trans(st, st1, st1.emit(call_operation(*fun, values)).1);
        },
        ExprView::Unary { op, x } => {
            let (v, st1) = eval_expr(*x, st);
            lemma_eval_expr(*x, st);
            lemma_emit(st1, OperationView::Neg(v));
            lemma_emit(st1, OperationView::Nan);
            lemma_extends_trans(st, st1, st1.emit(OperationView::Neg(v)).1);
            lemma_extends_trans(st, st1, st1.emit(OperationView::Nan).1);
        },
        ExprView::Binary { x, op, y } => {
            let (xv, st1) = eval_expr(*x, st);
            lemma_eval_expr(*x, st);
            let (yv, st2) = eval_expr(*y, st1);
            lemma_eval_expr(*y, st1);
            lemma_extends_trans(st, st1, st2);
            lemma_emit(st2, binary_operation(op, xv, yv));
            lemma_extends_trans(st, st2, st2.emit(binary_operation(op, xv, yv)).1);
        },
        ExprView::Paren { x, .. } => {
            lemma_eval_expr(*x, st);
        },
    }
}

/// The same for the arguments of a call: each of their values is the
/// result of an operation of the list.
pub proof fn lemma_eval_args(args: Seq<ExprView>, st: InterpreterView)
    requires
        st.valid(),
    ensures
        extends(st, eval_args(args, st).1),
        eval_args(args, st).1.env == st.env,
        eval_args(args, st).0.len() == args.len(),
        forall|i: int|
            0 <= i < args.len() ==> #[trigger] eval_args(args, st).0[i] < eval_args(
                args,
                st,
            ).1.ops.len(),
    decreases args,
{
    assert(st.ops.take(st.ops.len() as int) =~= st.ops);
    if args.len() > 0 {
        let (values, st1) = eval_args(args.drop_last(), st);
        lemma_eval_args(args.drop_last(), st);
        lemma_eval_expr(args.last(), st1);
        lemma_extends_trans(st, st1, eval_expr(args.last(), st1).1);
    }
}

/// Binding a name to the result of an operation of the list keeps a
/// valid state valid.
proof fn lemma_bind(st: InterpreterView, name: Seq<char>, v: nat)
    requires
        st.valid(),
        v < st.ops.len(),
    ensures
        extends(st, st.bind(name, v)),
{
    assert(st.ops.take(st.ops.len() as int) =~= st.ops);
}

/// The evaluation of a statement keeps a valid state valid and takes no
/// operation away, and its value is the result of an operation of the
/// list.
pub proof fn lemma_eval_stmt(s: StmtView, st: InterpreterView)
    requires
        st.valid(),
    ensures
        extends(st, eval_stmt(s, st).1),
        eval_stmt(s, st).0 < eval_stmt(s, st).1.ops.len(),
{
    lemma_emit(st, OperationView::Nan);
    lemma_emit(st, OperationView::Zero);
    match s {
        StmtView::Bad => {},
        StmtView::Decl(d) => {
            match d {
                DeclView::Binding { name, value, .. } => {
                    let (v, st1) = match value {
                        Some(e) => eval_expr(e, st),
                        None => st.emit(OperationView::Zero),
                    };
                    if let Some(e) = value {
                        lemma_eval_expr(e, st);
                    }
                    lemma_bind(st1, name, v);
                    lemma_extends_trans(st, st1, st1.bind(name, v));
                },
                _ => {},
            }
        },
        StmtView::Expr(e) => {
            lemma_eval_expr(e, st);
        },
        StmtView::Assign { ptr, val, .. } => {
            match ptr {
                ExprView::Ident { name, .. } => {
                    let (v, st1) = eval_expr(val, st);
                    lemma_eval_expr(val, st);
                    lemma_bind(st1, name, v);
                    lemma_extends_trans(st, st1, st1.bind(name, v));
                },
                _ => {},
            }
        },
    }
}

/// The same for statements evaluated in order.
proof fn lemma_eval_stmts(stmts: Seq<StmtView>, st: InterpreterView)
    requires
        st.valid(),
    ensures
        extends(st, eval_stmts(stmts, st).1),
        eval_stmts(stmts, st).0 matches Some(v) ==> v < eval_stmts(stmts, st).1.ops.len(),
    decreases stmts.len(),
{
    assert(st.ops.take(st.ops.len() as int) =~= st.ops);
    if stmts.len() > 0 {
        let (_, st1) = eval_stmts(stmts.drop_last(), st);
        lemma_eval_stmts(stmts.drop_last(), st);
        lemma_eval_stmt(stmts.last(), st1);
        lemma_extends_trans(st, st1, eval_stmt(stmts.last(), st1).1);
    }
}

/// What is assigned to a name or declared for it is what the name stands
/// for afterwards: the value of the statement is the value of the name in
/// the state that the statement leaves, and reading the name asks for no
/// operation.
pub proof fn theorem_binding_is_read_back(s: StmtView, st: InterpreterView, name: Seq<char>)
    requires
        (s matches StmtView::Assign { ptr: ExprView::Ident { name: n, .. }, .. } && n == name) || (
        s matches StmtView::Decl(DeclView::Binding { name: n, .. }) && n == name),
    ensures
        ({
            let (v, st1) = eval_stmt(s, st);
            eval_expr(ExprView::Ident { pos: 0, name }, st1) == (v, st1)
        }),
{
}

/// A name that is not bound has a value of its own that is not a number,
/// and its evaluation binds nothing.
pub proof fn theorem_unbound_name_is_nan(name: Seq<char>, pos: nat, st: InterpreterView)
    requires
        !st.env.contains_key(name),
    ensures
        ({
            let (v, st1) = eval_expr(ExprView::Ident { pos, name }, st);
            &&& v == st.ops.len()
            &&& st1.ops == st.ops.push(OperationView::Nan)
            &&& st1.env == st.env
        }),
{
}

/// The evaluation of a file keeps a valid state valid: every operation it
/// adds takes the results of earlier operations only, every name is bound
/// to the result of an operation, and so is the value of the file. The
/// operations that were there before stay as they were.
pub proof fn theorem_eval_file_valid(f: FileView, st: InterpreterView)
    requires
        st.valid(),
    ensures
        extends(st, eval_file(f, st).1),
        eval_file(f, st).0 < eval_file(f, st).1.ops.len(),
{
    lemma_eval_stmts(f.stmts, st);
    let (last, st1) = eval_stmts(f.stmts, st);
    if last is None {
        lemma_emit(st1, OperationView::Zero);
        lemma_extends_trans(st, st1, st1.emit(OperationView::Zero).1);
    }
}

} // verus!
