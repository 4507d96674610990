use crate::ast::{DeclView, ExprView, FileView, StmtView};
use crate::token::TokenView;
use vstd::prelude::*;

verus! {

/// The tokens that an expression is written with, in order.
pub open spec fn expr_tokens(e: ExprView) -> Seq<TokenView>
    decreases e,
{
    match e {
        ExprView::Bad => Seq::empty(),
        ExprView::Ident { name, .. } => seq![TokenView::Ident(name)],
        ExprView::BasicLit { tok, .. } => seq![tok],
        ExprView::Call { fun, args, .. } => expr_tokens(*fun) + seq![TokenView::Lparen]
            + args_tokens(args, 0) + seq![TokenView::Rparen],
        ExprView::Unary { op, x } => seq![op] + expr_tokens(*x),
        ExprView::Binary { x, op, y } => expr_tokens(*x) + seq![op] + expr_tokens(*y),
        ExprView::Paren { x, .. } => seq![TokenView::Lparen] + expr_tokens(*x)
            + seq![TokenView::Rparen],
    }
}

/// The tokens that the arguments of `args` from the one at `from` on are
/// written with: a comma stands between two arguments.
pub open spec fn args_tokens(args: Seq<ExprView>, from: int) -> Seq<TokenView>
    decreases args, args.len() - from,
{
    if 0 <= from < args.len() {
        if from + 1 < args.len() {
            expr_tokens(args[from]) + seq![TokenView::Comma] + args_tokens(args, from + 1)
        } else {
            expr_tokens(args[from])
        }
    } else {
        Seq::empty()
    }
}

/// The tokens that a declaration is written with.
pub open spec fn decl_tokens(d: DeclView) -> Seq<TokenView> {
    match d {
        DeclView::Binding { mutable, name, value, .. } => {
            let head = seq![
                if mutable {
                    TokenView::Var
                } else {
                    TokenView::Val
                },
                TokenView::Ident(name),
            ];
            match value {
                Some(e) => head + seq![TokenView::Assign] + expr_tokens(e),
                None => head,
            }
        },
        _ => Seq::empty(),
    }
}

/// The tokens that a statement is written with, the semicolon that ends
/// it among them.
pub open spec fn stmt_tokens(s: StmtView) -> Seq<TokenView> {
    match s {
        StmtView::Bad => Seq::empty(),
        StmtView::Decl(d) => decl_tokens(d) + seq![TokenView::Semicolon],
        StmtView::Expr(e) => expr_tokens(e) + seq![TokenView::Semicolon],
        StmtView::Assign { ptr, val, .. } => expr_tokens(ptr) + seq![TokenView::Assign]
            + expr_tokens(val) + seq![TokenView::Semicolon],
    }
}

/// The tokens that the statements of `stmts` from the one at `from` on are
/// written with.
pub open spec fn stmts_tokens(stmts: Seq<StmtView>, from: int) -> Seq<TokenView>
    decreases stmts.len() - from,
{
    if 0 <= from < stmts.len() {
        stmt_tokens(stmts[from]) + stmts_tokens(stmts, from + 1)
    } else {
        Seq::empty()
    }
}

/// The tokens that a file is written with.
pub open spec fn file_tokens(f: FileView) -> Seq<TokenView> {
    stmts_tokens(f.stmts, 0)
}

/// Whether `e` is an operand as the grammar has it: a name, a literal, or
/// an expression of the grammar between parentheses.
pub open spec fn is_operand(e: ExprView) -> bool
    decreases e, 0int,
{
    match e {
        ExprView::Ident { .. } => true,
        ExprView::BasicLit { tok, .. } => tok.is_literal(),
        ExprView::Paren { x, .. } => is_expr(*x),
        _ => false,
    }
}

/// Whether `e` is a primary expression: an operand, or the call of a
/// primary expression with one argument or more, each of them a unary
/// expression.
pub open spec fn is_primary(e: ExprView) -> bool
    decreases e, 1int,
{
    match e {
        ExprView::Call { fun, args, .. } => is_primary(*fun) && args.len() > 0 && forall|i: int|
            0 <= i < args.len() ==> is_unary(#[trigger] args[i]),
        _ => is_operand(e),
    }
}

/// Whether `e` is a unary expression: a primary expression, or a unary
/// expression after `+` or `-`.
pub open spec fn is_unary(e: ExprView) -> bool
    decreases e, 2int,
{
    match e {
        ExprView::Unary { op, x } => op.is_prefix_op() && is_unary(*x),
        _ => is_primary(e),
    }
}

/// Whether `e` is an expression: a unary expression, or two expressions
/// with a binary operator between them.
pub open spec fn is_expr(e: ExprView) -> bool
    decreases e, 3int,
{
    match e {
        ExprView::Binary { x, op, y } => op.is_binary_op() && is_expr(*x) && is_expr(*y),
        _ => is_unary(e),
    }
}

/// Whether `d` is a declaration as the grammar has it: a binding, with
/// an expression as its value if it has one.
pub open spec fn is_decl(d: DeclView) -> bool {
    match d {
        DeclView::Binding { value, .. } => value matches Some(e) ==> is_expr(e),
        _ => false,
    }
}

/// Whether the expression `e` may start a statement: its first token is a
/// name, a literal or a prefix operator.
pub open spec fn starts_stmt(e: ExprView) -> bool {
    expr_tokens(e).len() > 0 && crate::grammar::starts_simple_stmt(expr_tokens(e)[0])
}

/// Whether `s` is a statement as the grammar has it: a declaration, an
/// expression that may start a statement, or an assignment of an
/// expression to such an expression.
pub open spec fn is_stmt(s: StmtView) -> bool {
    match s {
        StmtView::Bad => false,
        StmtView::Decl(d) => is_decl(d),
        StmtView::Expr(e) => is_expr(e) && starts_stmt(e),
        StmtView::Assign { ptr, val, .. } => is_expr(ptr) && starts_stmt(ptr) && is_expr(val),
    }
}

/// Whether `f` is a file as the grammar has it: each of its statements is
/// one.
pub open spec fn is_file(f: FileView) -> bool {
    forall|i: int| 0 <= i < f.stmts.len() ==> is_stmt(#[trigger] f.stmts[i])
}

/// Each kind of expression of the grammar is one of the next kind too: an
/// operand is a primary expression, that a unary expression, and that an
/// expression. Only an expression can be two operands with a binary
/// operator between them, and none is `Bad`.
pub proof fn lemma_levels(e: ExprView)
    ensures
        is_operand(e) ==> is_primary(e),
        is_primary(e) ==> is_unary(e) && !(e is Unary) && !(e is Binary) && !(e is Bad),
        is_unary(e) ==> is_expr(e) && !(e is Binary) && !(e is Bad),
{
    if is_operand(e) {
        assert(is_primary(e));
    }
    if is_primary(e) {
        if !(e is Call) {
            assert(is_operand(e));
        }
        assert(!(e is Unary));
        assert(is_unary(e));
    }
    if is_unary(e) {
        if !(e is Unary) {
            assert(is_primary(e));
            if !(e is Call) {
                assert(is_operand(e));
            }
        }
        assert(is_expr(e));
    }
}

/// The tokens without their offsets.
pub open spec fn kinds(tokens: Seq<(TokenView, nat)>) -> Seq<TokenView> {
    Seq::new(tokens.len(), |i: int| tokens[i].0)
}

} // verus!
