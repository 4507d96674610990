use crate::ast::expr::{exprs_view, lemma_exprs_view_push};
use crate::ast::{
    stmts_view, AssignStmt, BadDecl, BadExpr, BadStmt, BasicLit, BinaryExpr, CallExpr, Decl,
    DeclStmt, Expr, ExprStmt, File, FunDecl, Ident, ParenExpr, Stmt, UnaryExpr, ValDecl, VarDecl,
    Visitor,
};
use crate::semantics::{
    eval_args, eval_decl, eval_expr, eval_file, eval_stmt, eval_stmts, theorem_eval_file_valid,
    InterpreterView, OperationView,
};
use crate::token::Token;
use vstd::prelude::*;
use vstd::string::StringExecFns;

verus! {

/// One step of arithmetic or of output that an evaluation asks for.
///
/// The evaluator works out which operations a program performs, in which
/// order and on which values, and leaves the arithmetic to whoever runs
/// the list. A `usize` in an operation names the result of an earlier
/// operation by its place in the list.
#[derive(Debug, PartialEq, Eq)]
pub enum Operation {
    /// The value that is not a number.
    Nan,
    /// The number 0.
    Zero,
    /// The integer that the text spells.
    Integer(String),
    /// The floating-point number that the text spells.
    Float(String),
    /// The negation of a value.
    Neg(usize),
    Add(usize, usize),
    Sub(usize, usize),
    Mul(usize, usize),
    Div(usize, usize),
    Rem(usize, usize),
    /// Writes the values, a space after each. Its own value is not a
    /// number.
    Print(Vec<usize>),
    /// As `Print`, and ends the line.
    Println(Vec<usize>),
}

/// The values of a list, as numbers.
pub open spec fn values_view(values: Seq<usize>) -> Seq<nat> {
    Seq::new(values.len(), |i: int| values[i] as nat)
}

impl View for Operation {
    type V = OperationView;

    open spec fn view(&self) -> OperationView {
        match self {
            Operation::Nan => OperationView::Nan,
            Operation::Zero => OperationView::Zero,
            Operation::Integer(s) => OperationView::Integer(s@),
            Operation::Float(s) => OperationView::Float(s@),
            Operation::Neg(a) => OperationView::Neg(*a as nat),
            Operation::Add(a, b) => OperationView::Add(*a as nat, *b as nat),
            Operation::Sub(a, b) => OperationView::Sub(*a as nat, *b as nat),
            Operation::Mul(a, b) => OperationView::Mul(*a as nat, *b as nat),
            Operation::Div(a, b) => OperationView::Div(*a as nat, *b as nat),
            Operation::Rem(a, b) => OperationView::Rem(*a as nat, *b as nat),
            Operation::Print(args) => OperationView::Print(values_view(args@)),
            Operation::Println(args) => OperationView::Println(values_view(args@)),
        }
    }
}

/// The views of a list of operations, in order.
pub open spec fn operations_view(ops: Seq<Operation>) -> Seq<OperationView> {
    Seq::new(ops.len(), |i: int| ops[i]@)
}

/// The place of the first binding of `name` in `entries` from `from` on,
/// or the length of `entries` if there is none.
pub open spec fn find_name(entries: Seq<(String, usize)>, name: Seq<char>, from: int) -> int
    decreases entries.len() - from,
{
    if 0 <= from < entries.len() {
        if entries[from].0@ == name {
            from
        } else {
            find_name(entries, name, from + 1)
        }
    } else {
        entries.len() as int
    }
}

/// The bindings that a list of names and values stands for: a name is
/// bound to the value at its first place in the list.
pub open spec fn bindings_view(entries: Seq<(String, usize)>) -> Map<Seq<char>, nat> {
    Map::new(
        |name: Seq<char>| find_name(entries, name, 0) < entries.len(),
        |name: Seq<char>| entries[find_name(entries, name, 0)].1 as nat,
    )
}

/// The place that `find_name` gives is that of a binding of the name, and
/// no binding of the name stands between `from` and it.
proof fn lemma_find_name(entries: Seq<(String, usize)>, name: Seq<char>, from: int)
    requires
        0 <= from <= entries.len(),
    ensures
        from <= find_name(entries, name, from) <= entries.len(),
        find_name(entries, name, from) < entries.len() ==> entries[find_name(
            entries,
            name,
            from,
        )].0@ == name,
        forall|i: int|
            from <= i < find_name(entries, name, from) ==> (#[trigger] entries[i]).0@ != name,
    decreases entries.len() - from,
{
    if from < entries.len() && entries[from].0@ != name {
        lemma_find_name(entries, name, from + 1);
    }
}

/// Two lists with the same names in the same places find each name at the
/// same place.
proof fn lemma_find_same_names(
    a: Seq<(String, usize)>,
    b: Seq<(String, usize)>,
    name: Seq<char>,
    from: int,
)
    requires
        0 <= from <= a.len(),
        a.len() == b.len(),
        forall|i: int| 0 <= i < a.len() ==> (#[trigger] a[i]).0@ == b[i].0@,
    ensures
        find_name(a, name, from) == find_name(b, name, from),
    decreases a.len() - from,
{
    if from < a.len() {
        assert(a[from].0@ == b[from].0@);
        if a[from].0@ != name {
            lemma_find_same_names(a, b, name, from + 1);
        }
    }
}

/// What a list finds once one more binding stands at its end.
proof fn lemma_find_pushed(
    entries: Seq<(String, usize)>,
    entry: (String, usize),
    name: Seq<char>,
    from: int,
)
    requires
        0 <= from <= entries.len(),
    ensures
        find_name(entries.push(entry), name, from) == if find_name(entries, name, from)
            < entries.len() {
            find_name(entries, name, from)
        } else if entry.0@ == name {
            entries.len() as int
        } else {
            entries.len() as int + 1
        },
    decreases entries.len() - from,
{
    let pushed = entries.push(entry);
    if from < entries.len() {
        assert(pushed[from] == entries[from]);
        if entries[from].0@ != name {
            lemma_find_pushed(entries, entry, name, from + 1);
        }
    } else {
        assert(pushed[from] == entry);
        assert(find_name(pushed, name, from + 1) == pushed.len());
    }
}

/// A binding in the place of the first binding of its name binds the name
/// to its value and leaves every other name as it was.
proof fn lemma_bind_again(entries: Seq<(String, usize)>, at: int, entry: (String, usize))
    requires
        at == find_name(entries, entry.0@, 0),
        at < entries.len(),
    ensures
        bindings_view(entries.update(at, entry)) == bindings_view(entries).insert(
            entry.0@,
            entry.1 as nat,
        ),
        names_unique(entries) ==> names_unique(entries.update(at, entry)),
{
    lemma_find_name(entries, entry.0@, 0);
    let after = entries.update(at, entry);
    assert forall|i: int| 0 <= i < after.len() implies (#[trigger] after[i]).0@
        == entries[i].0@ by {}
    assert forall|k: Seq<char>| find_name(after, k, 0) == find_name(entries, k, 0) by {
        lemma_find_same_names(after, entries, k, 0);
    }
    assert forall|k: Seq<char>| #[trigger]
        bindings_view(after).contains_key(k) implies bindings_view(after)[k] == bindings_view(
        entries,
    ).insert(entry.0@, entry.1 as nat)[k] by {
        lemma_find_name(entries, k, 0);
        if k != entry.0@ {
            assert(find_name(entries, k, 0) != at);
        }
    }
    assert(bindings_view(after).dom() =~= bindings_view(entries).insert(
        entry.0@,
        entry.1 as nat,
    ).dom());
    assert(bindings_view(after) =~= bindings_view(entries).insert(entry.0@, entry.1 as nat));
    if names_unique(entries) {
        assert forall|a: int, b: int| 0 <= a < b < after.len() implies (#[trigger] after[a]).0@ != (
        #[trigger] after[b]).0@ by {
            assert(after[a].0@ == entries[a].0@);
            assert(after[b].0@ == entries[b].0@);
        }
    }
}

/// A binding at the end, of a name that was not bound, binds the name to
/// its value and leaves every other name as it was.
proof fn lemma_bind_new(entries: Seq<(String, usize)>, entry: (String, usize))
    requires
        find_name(entries, entry.0@, 0) == entries.len(),
    ensures
        bindings_view(entries.push(entry)) == bindings_view(entries).insert(
            entry.0@,
            entry.1 as nat,
        ),
        names_unique(entries) ==> names_unique(entries.push(entry)),
{
    let after = entries.push(entry);
    lemma_find_name(entries, entry.0@, 0);
    assert forall|k: Seq<char>|
        find_name(after, k, 0) == if find_name(entries, k, 0) < entries.len() {
            find_name(entries, k, 0)
        } else if entry.0@ == k {
            entries.len() as int
        } else {
            entries.len() as int + 1
        } by {
        lemma_find_pushed(entries, entry, k, 0);
    }
    assert forall|k: Seq<char>| #[trigger]
        bindings_view(entries).contains_key(k) implies bindings_view(after)[k] == bindings_view(
        entries,
    )[k] by {
        lemma_find_name(entries, k, 0);
    }
    assert(bindings_view(after) =~= bindings_view(entries).insert(entry.0@, entry.1 as nat));
    if names_unique(entries) {
        assert forall|a: int, b: int| 0 <= a < b < after.len() implies (#[trigger] after[a]).0@ != (
        #[trigger] after[b]).0@ by {
            assert(after[a] == entries[a]);
            if b < entries.len() {
                assert(after[b] == entries[b]);
            }
        }
    }
}

/// Whether no name is bound twice in `entries`.
pub open spec fn names_unique(entries: Seq<(String, usize)>) -> bool {
    forall|i: int, j: int|
        0 <= i < j < entries.len() ==> (#[trigger] entries[i]).0@ != (#[trigger] entries[j]).0@
}

/// An evaluator of syntax trees. It holds one flat environment of names,
/// and the list of the operations that the statements evaluated so far
/// perform. The value it gives for a node is the place of the operation
/// that computes the node's value.
pub struct Interpreter {
    env: Vec<(String, usize)>,
    ops: Vec<Operation>,
}

impl View for Interpreter {
    type V = InterpreterView;

    closed spec fn view(&self) -> InterpreterView {
        InterpreterView { env: bindings_view(self.env@), ops: operations_view(self.ops@) }
    }
}

impl Interpreter {
    /// The validity of an evaluator: its environment holds each name
    /// once.
    pub closed spec fn wf(&self) -> bool {
        names_unique(self.env@)
    }

    /// An evaluator in which no name is bound and nothing is asked for.
    pub fn new() -> (r: Interpreter)
        ensures
            r.wf(),
            r@ == InterpreterView::empty(),
    {
        let r = Interpreter { env: Vec::new(), ops: Vec::new() };
        proof {
            assert(r@.env =~= Map::empty());
            assert(r@.ops =~= Seq::empty());
        }
        r
    }

    /// The operations asked for so far, in the order in which they are to
    /// be performed.
    pub fn operations(&self) -> (r: &Vec<Operation>)
        ensures
            operations_view(r@) == self@.ops,
    {
        &self.ops
    }

    /// The place of the binding of `key` in the environment, or the
    /// length of the environment if the name is not bound.
    fn position(&self, key: &String) -> (r: usize)
        ensures
            r == find_name(self.env@, key@, 0),
            r <= self.env.len(),
    {
        let mut i: usize = 0;
        while i < self.env.len()
            invariant
                i <= self.env.len(),
                find_name(self.env@, key@, i as int) == find_name(self.env@, key@, 0),
            decreases self.env.len() - i,
        {
            if self.env[i].0 == *key {
                return i;
            }
            i += 1;
        }
        i
    }

    /// The value that `key` is bound to, if it is bound.
    pub fn get(&self, key: &String) -> (r: Option<usize>)
        ensures
            r is Some <==> self@.env.contains_key(key@),
            r matches Some(v) ==> self@.env[key@] == v,
    {
        let i = self.position(key);
        if i < self.env.len() {
            Some(self.env[i].1)
        } else {
            None
        }
    }

    /// Binds `key` to `val`, and gives the value it was bound to before.
    fn set(&mut self, key: String, val: usize) -> (r: Option<usize>)
        ensures
            final(self)@ == old(self)@.bind(key@, val as nat),
            old(self).wf() ==> final(self).wf(),
            r is Some <==> old(self)@.env.contains_key(key@),
            r matches Some(v) ==> old(self)@.env[key@] == v,
    {
        let i = self.position(&key);
        let ghost before = self.env@;
        if i < self.env.len() {
            let old_val = self.env[i].1;
            proof {
                lemma_bind_again(before, i as int, (key, val));
            }
            self.env.set(i, (key, val));
            proof {
                assert(operations_view(self.ops@) =~= operations_view(old(self).ops@));
            }
            Some(old_val)
        } else {
            proof {
                lemma_bind_new(before, (key, val));
            }
            self.env.push((key, val));
            proof {
                assert(operations_view(self.ops@) =~= operations_view(old(self).ops@));
            }
            None
        }
    }

    /// Asks for one more operation, and gives its place.
    fn emit(&mut self, op: Operation) -> (r: usize)
        ensures
            (r as nat, final(self)@) == old(self)@.emit(op@),
            old(self).wf() ==> final(self).wf(),
    {
        let r = self.ops.len();
        self.ops.push(op);
        proof {
            assert(operations_view(self.ops@) =~= operations_view(old(self).ops@).push(op@));
        }
        r
    }

    /// Evaluates the arguments of a call from left to right and asks for
    /// the output, if `print` or `println` is called.
    fn call(&mut self, e: &CallExpr) -> (r: usize)
        ensures
            (r as nat, final(self)@) == eval_expr(e@, old(self)@),
            old(self).wf() ==> final(self).wf(),
        decreases e, 0int,
    {
        let mut args: Vec<usize> = Vec::new();
        let mut i: usize = 0;
        proof {
            assert(e.args@.take(0) =~= Seq::empty());
            assert(values_view(args@) =~= Seq::empty());
        }
        while i < e.args.len()
            invariant
                i <= e.args.len(),
                old(self).wf() ==> self.wf(),
                (values_view(args@), self@) == eval_args(
                    exprs_view(e.args@.take(i as int)),
                    old(self)@,
                ),
            decreases e.args.len() - i,
        {
            let ghost seen = exprs_view(e.args@.take(i as int));
            let ghost values = values_view(args@);
            let v = self.visit_expr(&e.args[i]);
            args.push(v);
            proof {
                lemma_exprs_view_push(e.args@.take(i as int), e.args@[i as int]);
                assert(e.args@.take(i + 1) =~= e.args@.take(i as int).push(e.args@[i as int]));
                assert(seen.push(e.args@[i as int]@).drop_last() =~= seen);
                assert(values_view(args@) =~= values.push(v as nat));
            }
            i += 1;
        }
        proof {
            assert(e.args@.take(e.args.len() as int) =~= e.args@);
        }
        match &*e.fun {
            Expr::Ident(id) => {
                if id.name == String::from_str("print") {
                    self.emit(Operation::Print(args))
                } else if id.name == String::from_str("println") {
                    self.emit(Operation::Println(args))
                } else {
                    self.emit(Operation::Nan)
                }
            },
            _ => self.emit(Operation::Nan),
        }
    }
}

/// Whether a `.` stands in `text`.
fn has_dot(text: &String) -> (r: bool)
    ensures
        r == text@.contains('.'),
{
    let s = text.as_str();
    let mut found = false;
    for c in it: s.chars()
        invariant
            it.seq() == s@,
            found == s@.take(it.index() as int).contains('.'),
    {
        proof {
            let seen = s@.take(it.index() as int);
            assert(s@.take(it.index() + 1) =~= seen.push(c));
            if c == '.' {
                assert(seen.push(c)[seen.len() as int] == '.');
            } else if seen.push(c).contains('.') {
                let j = choose|j: int| 0 <= j < seen.push(c).len() && seen.push(c)[j] == '.';
                assert(seen[j] == '.');
            } else if seen.contains('.') {
                let j = choose|j: int| 0 <= j < seen.len() && seen[j] == '.';
                assert(seen.push(c)[j] == '.');
            }
        }
        if c == '.' {
            found = true;
        }
    }
    proof {
        assert(s@.take(s@.len() as int) =~= s@);
    }
    found
}

impl Visitor<usize> for Interpreter {
    /// Evaluates the statements of `file` in order. The value is that of
    /// the last statement, and 0 for a file without statements.
    fn visit_file(&mut self, file: &File) -> (r: usize)
        ensures
            (r as nat, final(self)@) == eval_file(file@, old(self)@),
            old(self).wf() ==> final(self).wf(),
            old(self)@.valid() ==> final(self)@.valid() && r < final(self)@.ops.len(),
    {
        proof {
            if self@.valid() {
                theorem_eval_file_valid(file@, self@);
            }
        }
        let mut ret: Option<usize> = None;
        let mut i: usize = 0;
        proof {
            assert(stmts_view(file.stmts@).take(0) =~= Seq::empty());
        }
        while i < file.stmts.len()
            invariant
                i <= file.stmts.len(),
                old(self).wf() ==> self.wf(),
                (
                    match ret {
                        Some(v) => Some(v as nat),
                        None => None,
                    },
                    self@,
                ) == eval_stmts(stmts_view(file.stmts@).take(i as int), old(self)@),
            decreases file.stmts.len() - i,
        {
            let ghost all = stmts_view(file.stmts@);
            let v = self.visit_stmt(&file.stmts[i]);
            ret = Some(v);
            proof {
                assert(all.take(i + 1).drop_last() =~= all.take(i as int));
                assert(all.take(i + 1).last() == file.stmts@[i as int]@);
            }
            i += 1;
        }
        proof {
            assert(stmts_view(file.stmts@).take(file.stmts.len() as int) =~= file@.stmts);
        }
        match ret {
            Some(v) => v,
            None => self.emit(Operation::Zero),
        }
    }

    fn visit_stmt(&mut self, stmt: &Stmt) -> (r: usize)
        ensures
            (r as nat, final(self)@) == eval_stmt(stmt@, old(self)@),
            old(self).wf() ==> final(self).wf(),
    {
        match stmt {
            Stmt::Bad(x) => self.visit_bad_stmt(x),
            Stmt::Decl(x) => self.visit_decl_stmt(x),
            Stmt::Expr(x) => self.visit_expr_stmt(x),
            Stmt::Assign(x) => self.visit_assign_stmt(x),
        }
    }

    fn visit_bad_stmt(&mut self, x: &BadStmt) -> (r: usize)
        ensures
            (r as nat, final(self)@) == eval_stmt(x@, old(self)@),
            old(self).wf() ==> final(self).wf(),
    {
        self.emit(Operation::Nan)
    }

    fn visit_decl_stmt(&mut self, decl_stmt: &DeclStmt) -> (r: usize)
        ensures
            (r as nat, final(self)@) == eval_stmt(decl_stmt@, old(self)@),
            old(self).wf() ==> final(self).wf(),
    {
        self.visit_decl(&*decl_stmt.decl)
    }

    fn visit_expr_stmt(&mut self, x: &ExprStmt) -> (r: usize)
        ensures
            (r as nat, final(self)@) == eval_stmt(x@, old(self)@),
            old(self).wf() ==> final(self).wf(),
    {
        self.visit_expr(&*x.x)
    }

    fn visit_assign_stmt(&mut self, x: &AssignStmt) -> (r: usize)
        ensures
            (r as nat, final(self)@) == eval_stmt(x@, old(self)@),
            old(self).wf() ==> final(self).wf(),
    {
        match &*x.ptr {
            Expr::Ident(id) => {
                let key = id.name.clone();
                let val = self.visit_expr(&*x.val);
                self.set(key, val);
                val
            },
            _ => self.emit(Operation::Nan),
        }
    }

    fn visit_decl(&mut self, decl: &Decl) -> (r: usize)
        ensures
            (r as nat, final(self)@) == eval_decl(decl@, old(self)@),
            old(self).wf() ==> final(self).wf(),
    {
        match decl {
            Decl::Bad(x) => self.visit_bad_decl(x),
            Decl::Var(x) => self.visit_var_decl(x),
            Decl::Val(x) => self.visit_val_decl(x),
            Decl::Fun(x) => self.visit_fun_decl(x),
        }
    }

    fn visit_bad_decl(&mut self, x: &BadDecl) -> (r: usize)
        ensures
            (r as nat, final(self)@) == eval_decl(x@, old(self)@),
            old(self).wf() ==> final(self).wf(),
    {
        self.emit(Operation::Nan)
    }

    fn visit_var_decl(&mut self, decl: &VarDecl) -> (r: usize)
        ensures
            (r as nat, final(self)@) == eval_decl(decl@, old(self)@),
            old(self).wf() ==> final(self).wf(),
    {
        let key = decl.name.name.clone();
        let val = if let Option::Some(expr) = &decl.value {
            self.visit_expr(&**expr)
        } else {
            self.emit(Operation::Zero)
        };
        self.set(key, val);
        val
    }

    fn visit_val_decl(&mut self, decl: &ValDecl) -> (r: usize)
        ensures
            (r as nat, final(self)@) == eval_decl(decl@, old(self)@),
            old(self).wf() ==> final(self).wf(),
    {
        let key = decl.name.name.clone();
        let val = if let Option::Some(expr) = &decl.value {
            self.visit_expr(&**expr)
        } else {
            self.emit(Operation::Zero)
        };
        self.set(key, val);
        val
    }

    fn visit_fun_decl(&mut self, x: &FunDecl) -> (r: usize)
        ensures
            (r as nat, final(self)@) == eval_decl(x@, old(self)@),
            old(self).wf() ==> final(self).wf(),
    {
        self.emit(Operation::Nan)
    }

    fn visit_expr(&mut self, x: &Expr) -> (r: usize)
        ensures
            (r as nat, final(self)@) == eval_expr(x@, old(self)@),
            old(self).wf() ==> final(self).wf(),
        decreases x, 1int,
    {
        match x {
            Expr::Bad(x) => self.visit_bad_expr(x),
            Expr::Ident(x) => self.visit_ident(x),
            Expr::BasicLit(x) => self.visit_basic_lit(x),
            Expr::Call(x) => self.visit_call_expr(x),
            Expr::Unary(x) => self.visit_unary_expr(x),
            Expr::Binary(x) => self.visit_binary_expr(x),
            Expr::Paren(x) => self.visit_paren_expr(x),
        }
    }

    fn visit_bad_expr(&mut self, x: &BadExpr) -> (r: usize)
        ensures
            (r as nat, final(self)@) == eval_expr(x@, old(self)@),
            old(self).wf() ==> final(self).wf(),
    {
        self.emit(Operation::Nan)
    }

    fn visit_ident(&mut self, x: &Ident) -> (r: usize)
        ensures
            (r as nat, final(self)@) == eval_expr(x@, old(self)@),
            old(self).wf() ==> final(self).wf(),
    {
        if let Option::Some(v) = self.get(&x.name) {
            v
        } else {
            self.emit(Operation::Nan)
        }
    }

    fn visit_basic_lit(&mut self, x: &BasicLit) -> (r: usize)
        ensures
            (r as nat, final(self)@) == eval_expr(x@, old(self)@),
            old(self).wf() ==> final(self).wf(),
    {
        match &x.tok {
            Token::Integer(lit) => {
                if has_dot(lit) {
                    self.emit(Operation::Float(lit.clone()))
                } else {
                    self.emit(Operation::Integer(lit.clone()))
                }
            },
            Token::Float(lit) => self.emit(Operation::Float(lit.clone())),
            _ => self.emit(Operation::Nan),
        }
    }

    fn visit_call_expr(&mut self, x: &CallExpr) -> (r: usize)
        ensures
            (r as nat, final(self)@) == eval_expr(x@, old(self)@),
            old(self).wf() ==> final(self).wf(),
        decreases x, 1int,
    {
        self.call(x)
    }

    fn visit_unary_expr(&mut self, x: &UnaryExpr) -> (r: usize)
        ensures
            (r as nat, final(self)@) == eval_expr(x@, old(self)@),
            old(self).wf() ==> final(self).wf(),
        decreases x, 0int,
    {
        let v = self.visit_expr(&*x.x);
        match x.op {
            Token::Add => v,
            Token::Sub => self.emit(Operation::Neg(v)),
            _ => self.emit(Operation::Nan),
        }
    }

    fn visit_binary_expr(&mut self, x: &BinaryExpr) -> (r: usize)
        ensures
            (r as nat, final(self)@) == eval_expr(x@, old(self)@),
            old(self).wf() ==> final(self).wf(),
        decreases x, 0int,
    {
        let xv = self.visit_expr(&*x.x);
        let yv = self.visit_expr(&*x.y);
        match x.op {
            Token::Add => self.emit(Operation::Add(xv, yv)),
            Token::Sub => self.emit(Operation::Sub(xv, yv)),
            Token::Mul => self.emit(Operation::Mul(xv, yv)),
            Token::Div => self.emit(Operation::Div(xv, yv)),
            Token::Rem => self.emit(Operation::Rem(xv, yv)),
            _ => self.emit(Operation::Nan),
        }
    }

    fn visit_paren_expr(&mut self, x: &ParenExpr) -> (r: usize)
        ensures
            (r as nat, final(self)@) == eval_expr(x@, old(self)@),
            old(self).wf() ==> final(self).wf(),
        decreases x, 0int,
    {
        self.visit_expr(&*x.x)
    }
}

} // verus!
