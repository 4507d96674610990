use crate::ast::{DeclView, ExprView, FileView, StmtView};
use crate::lexer::LexerView;
use crate::token::TokenView;
use vstd::prelude::*;

verus! {

/// The mathematical state of a parse: the tokens that are still to be
/// read, each with its offset, the offset of the end of the source, and
/// the errors recorded so far, each an offset and a message.
pub struct ParserView {
    pub tokens: Seq<(TokenView, nat)>,
    pub eof: nat,
    pub errors: Seq<(nat, Seq<char>)>,
}

impl ParserView {
    /// The state in which the parse of what the scanner `lexer` has left
    /// begins.
    pub open spec fn start(lexer: LexerView) -> ParserView {
        ParserView { tokens: lexer.tokens(), eof: lexer.end_pos(), errors: Seq::empty() }
    }

    /// The token under the cursor; `Eof` once all tokens are read.
    pub open spec fn tok(self) -> TokenView {
        if self.tokens.len() > 0 {
            self.tokens[0].0
        } else {
            TokenView::Eof
        }
    }

    /// The offset of the token under the cursor.
    pub open spec fn pos(self) -> nat {
        if self.tokens.len() > 0 {
            self.tokens[0].1
        } else {
            self.eof
        }
    }

    /// The state after the token under the cursor is passed. At the end
    /// nothing changes.
    pub open spec fn advance(self) -> ParserView {
        if self.tokens.len() > 0 {
            ParserView { tokens: self.tokens.drop_first(), ..self }
        } else {
            self
        }
    }

    /// The state with one more error, at the token under the cursor.
    pub open spec fn error(self, msg: Seq<char>) -> ParserView {
        ParserView { errors: self.errors.push((self.pos(), msg)), ..self }
    }

    /// Passes the token `want` and gives its offset. Where another token
    /// stands, that is an error: nothing is passed and the offset is 0.
    pub open spec fn expect(self, want: TokenView, msg: Seq<char>) -> (nat, ParserView) {
        if self.tok() == want {
            (self.pos(), self.advance())
        } else {
            (0, self.error(msg))
        }
    }

    /// Whether `after` may follow this state in a parse: the source ends
    /// where it did, no token has come back, and every error recorded
    /// before is still there, in its place.
    pub open spec fn leads_to(self, after: ParserView) -> bool {
        &&& after.eof == self.eof
        &&& after.tokens.len() <= self.tokens.len()
        &&& self.errors.len() <= after.errors.len()
        &&& after.errors.take(self.errors.len() as int) == self.errors
    }

    /// Whether no error was recorded between this state and `after`.
    pub open spec fn clean_to(self, after: ParserView) -> bool {
        after.errors.len() == self.errors.len()
    }

    /// Passes the semicolon that ends a statement. Where none stands, that
    /// is an error, and the parse goes on as if it had been there.
    pub open spec fn end_statement(self) -> ParserView {
        self.expect(TokenView::Semicolon, "expected semiclon"@).1
    }
}

/// Whether a step from `before` to `after` passed no token twice: no more
/// tokens are left than there were, and fewer if there were any.
pub open spec fn consumed(before: ParserView, after: ParserView) -> bool {
    &&& after.tokens.len() <= before.tokens.len()
    &&& before.tokens.len() > 0 ==> after.tokens.len() < before.tokens.len()
}

/// A name: an identifier token. Where another token stands, that is an
/// error; the token stays, and the name is `_` at offset 0.
pub open spec fn parse_ident(st: ParserView) -> ((nat, Seq<char>), ParserView) {
    match st.tok() {
        TokenView::Ident(name) => ((st.pos(), name), st.advance()),
        _ => ((0, "_"@), st.error("expect Identifier"@)),
    }
}

/// An expression: operands with binary operators between them, grouped by
/// precedence, and to the left among operators of one precedence.
///
/// The functions that read expressions call one another. Where one of
/// them goes on after another has read, it does so only if the other has
/// left no more tokens than it found. That is always so, as
/// [`crate::recovery`] shows, and it is what lets the recursion end.
pub open spec fn parse_expr(st: ParserView) -> (ExprView, ParserView)
    decreases st.tokens.len(), 5int,
{
    parse_binary_expr(st, 1)
}

/// An expression whose operators all bind with `prec` at least.
pub open spec fn parse_binary_expr(st: ParserView, prec: int) -> (ExprView, ParserView)
    decreases st.tokens.len(), 4int,
{
    let (x, st1) = parse_unary_expr(st);
    if st1.tokens.len() <= st.tokens.len() {
        parse_binary_rest(x, st1, prec)
    } else {
        (x, st1)
    }
}

/// What follows the left operand `x`: as long as a binary operator of
/// precedence `prec` or more stands under the cursor, it is passed, its
/// right operand is read with the operators that bind tighter than it,
/// and the two operands form the new left operand.
pub open spec fn parse_binary_rest(x: ExprView, st: ParserView, prec: int) -> (
    ExprView,
    ParserView,
)
    decreases st.tokens.len(), 0int,
{
    let op = st.tok();
    if op.is_binary_op() && op.prec() >= prec {
        let (y, st1) = parse_binary_expr(st.advance(), op.prec() + 1);
        let node = ExprView::Binary { x: Box::new(x), op, y: Box::new(y) };
        if st1.tokens.len() < st.tokens.len() {
            parse_binary_rest(node, st1, prec)
        } else {
            (node, st1)
        }
    } else {
        (x, st)
    }
}

/// Any number of prefix operators, `+` or `-`, before a primary
/// expression.
pub open spec fn parse_unary_expr(st: ParserView) -> (ExprView, ParserView)
    decreases st.tokens.len(), 3int,
{
    let op = st.tok();
    if op.is_prefix_op() {
        let (x, st1) = parse_unary_expr(st.advance());
        (ExprView::Unary { op, x: Box::new(x) }, st1)
    } else {
        parse_primary_expr(st)
    }
}

/// An operand, and the calls made of it.
pub open spec fn parse_primary_expr(st: ParserView) -> (ExprView, ParserView)
    decreases st.tokens.len(), 2int,
{
    let (x, st1) = parse_operand(st);
    if st1.tokens.len() <= st.tokens.len() {
        parse_primary_rest(x, st1)
    } else {
        (x, st1)
    }
}

/// What follows the expression `x`: as long as `(` stands under the
/// cursor, a call of what was read so far.
pub open spec fn parse_primary_rest(x: ExprView, st: ParserView) -> (ExprView, ParserView)
    decreases st.tokens.len(), 1int,
{
    if st.tok() is Lparen {
        let (call, st1) = parse_call_expr(x, st);
        if st1.tokens.len() < st.tokens.len() {
            parse_primary_rest(call, st1)
        } else {
            (call, st1)
        }
    } else {
        (x, st)
    }
}

/// An identifier, a literal, or an expression between parentheses. Any
/// other token is an error: it is passed, and the operand is `Bad`.
pub open spec fn parse_operand(st: ParserView) -> (ExprView, ParserView)
    decreases st.tokens.len(), 0int,
{
    let tok = st.tok();
    match tok {
        TokenView::Ident(name) => (ExprView::Ident { pos: st.pos(), name }, st.advance()),
        TokenView::Integer(_) | TokenView::Float(_) | TokenView::String(_) => (
            ExprView::BasicLit { pos: st.pos(), tok },
            st.advance(),
        ),
        TokenView::Lparen => {
            let (x, st1) = parse_expr(st.advance());
            let (r_pos, st2) = st1.expect(TokenView::Rparen, "expected ')'"@);
            (ExprView::Paren { l_pos: st.pos(), x: Box::new(x), r_pos }, st2)
        },
        _ => (ExprView::Bad, st.error("expect Operand"@).advance()),
    }
}

/// The call of `fun`: `(`, the arguments, `)`. Each of the two
/// parentheses that is missing is an error, and its offset is then 0.
pub open spec fn parse_call_expr(fun: ExprView, st: ParserView) -> (ExprView, ParserView)
    decreases st.tokens.len(),
        if st.tok() is Lparen {
            0int
        } else {
            6int
        },
{
    let (lp_pos, st1) = st.expect(TokenView::Lparen, "expect Lparen"@);
    let (args, st2) = parse_expr_list(st1);
    let (rp_pos, st3) = st2.expect(TokenView::Rparen, "expect Rparen"@);
    (ExprView::Call { fun: Box::new(fun), lp_pos, args, rp_pos }, st3)
}

/// One argument or more, with commas between them. An argument is a
/// unary expression: a binary operator ends it.
pub open spec fn parse_expr_list(st: ParserView) -> (Seq<ExprView>, ParserView)
    decreases st.tokens.len(), 4int,
{
    let (x, st1) = parse_unary_expr(st);
    if st1.tokens.len() <= st.tokens.len() {
        parse_expr_list_rest(seq![x], st1)
    } else {
        (seq![x], st1)
    }
}

/// What follows the arguments `list`: as long as a comma stands under the
/// cursor, it is passed and one more argument is read.
pub open spec fn parse_expr_list_rest(list: Seq<ExprView>, st: ParserView) -> (
    Seq<ExprView>,
    ParserView,
)
    decreases st.tokens.len(), 0int,
{
    if st.tok() is Comma {
        let (x, st1) = parse_unary_expr(st.advance());
        if st1.tokens.len() < st.tokens.len() {
            parse_expr_list_rest(list.push(x), st1)
        } else {
            (list.push(x), st1)
        }
    } else {
        (list, st)
    }
}

/// What follows `var` or `val`, which stood at `pos`: a name and, after
/// `=`, the value.
pub open spec fn parse_var_decl(st: ParserView, mutable: bool, pos: nat) -> (DeclView, ParserView) {
    let ((name_pos, name), st1) = parse_ident(st);
    if st1.tok() is Assign {
        let (value, st2) = parse_expr(st1.advance());
        (
            DeclView::Binding {
                mutable,
                pos,
                name_pos,
                name,
                assign_pos: st1.pos(),
                value: Some(value),
            },
            st2,
        )
    } else {
        (DeclView::Binding { mutable, pos, name_pos, name, assign_pos: 0, value: None }, st1)
    }
}

/// A declaration: `var` or `val` and what follows it. Any other token is
/// an error; it stays, and the declaration is `Bad`.
pub open spec fn parse_decl(st: ParserView) -> (DeclView, ParserView) {
    match st.tok() {
        TokenView::Var => parse_var_decl(st.advance(), true, st.pos()),
        TokenView::Val => parse_var_decl(st.advance(), false, st.pos()),
        _ => (DeclView::Bad, st.error("expect Declaration"@)),
    }
}

/// A declaration and the semicolon that ends it.
pub open spec fn parse_decl_stmt(st: ParserView) -> (StmtView, ParserView) {
    let (decl, st1) = parse_decl(st);
    (StmtView::Decl(decl), st1.end_statement())
}

/// An expression and the semicolon that ends it; or, where `=` follows the
/// expression, an assignment to it: `=`, the value, and the semicolon.
pub open spec fn parse_simple_stmt(st: ParserView) -> (StmtView, ParserView) {
    let (x, st1) = parse_expr(st);
    if st1.tok() is Assign {
        let (y, st2) = parse_expr(st1.advance());
        (
            StmtView::Assign { ptr: x, pos: st1.pos(), tok: TokenView::Assign, val: y },
            st2.end_statement(),
        )
    } else {
        (StmtView::Expr(x), st1.end_statement())
    }
}

/// Whether a statement that is an expression or an assignment may start
/// with `tok`: an identifier, a literal, or a prefix operator.
pub open spec fn starts_simple_stmt(tok: TokenView) -> bool {
    tok is Ident || tok.is_literal() || tok.is_prefix_op()
}

/// One statement. `var` and `val` start a declaration. A token that
/// starts no statement is an error: it is passed, and the statement is
/// `Bad`.
pub open spec fn parse_stmt(st: ParserView) -> (StmtView, ParserView) {
    let tok = st.tok();
    if tok is Var || tok is Val {
        parse_decl_stmt(st)
    } else if starts_simple_stmt(tok) {
        parse_simple_stmt(st)
    } else {
        (StmtView::Bad, st.error("expect Statement"@).advance())
    }
}

/// The statements up to `Eof`.
pub open spec fn parse_stmts(st: ParserView) -> (Seq<StmtView>, ParserView)
    decreases st.tokens.len(),
{
    if st.tok() is Eof {
        (Seq::empty(), st)
    } else {
        let (stmt, st1) = parse_stmt(st);
        if st1.tokens.len() < st.tokens.len() {
            let (rest, st2) = parse_stmts(st1);
            (seq![stmt] + rest, st2)
        } else {
            (seq![stmt], st1)
        }
    }
}

/// The whole source: its statements, and the state in which the parse
/// ends.
pub open spec fn parse_file(st: ParserView) -> (FileView, ParserView) {
    let (stmts, st1) = parse_stmts(st);
    (FileView { stmts }, st1)
}

/// The tree of the source text `chars`, and the errors of its parse.
pub open spec fn parse_source(chars: Seq<char>) -> (FileView, Seq<(nat, Seq<char>)>) {
    let (file, st) = parse_file(ParserView::start(LexerView::start(chars)));
    (file, st.errors)
}

} // verus!
