use crate::ast::{
    stmts_view, AssignStmt, BadDecl, BadExpr, BadStmt, BasicLit, BinaryExpr, CallExpr, Decl,
    DeclStmt, Expr, ExprStmt, File, Ident, ParenExpr, Stmt, UnaryExpr, ValDecl, VarDecl,
};
use crate::ast::expr::{exprs_view, lemma_exprs_view_push, ExprView};
use crate::grammar;
use crate::grammar::ParserView;
use crate::lexer::{lemma_scan_progress, Lexer, LexerView};
use crate::token::{Token, TokenView, LOWEST_PREC, UNARY_PREC};
use vstd::prelude::*;
use vstd::string::StringExecFns;

verus! {

/// The views of recorded errors, in order.
pub open spec fn errors_view(errors: Seq<(usize, String)>) -> Seq<(nat, Seq<char>)> {
    Seq::new(errors.len(), |i: int| (errors[i].0 as nat, errors[i].1@))
}

/// A parser over the tokens of a [`Lexer`]. It reads one token ahead, and
/// never stops at an error: it records it, with its offset, in `errors`
/// and goes on.
pub struct Parser {
    tok: Token,
    pos: usize,
    lexer: Lexer,
    errors: Vec<(usize, String)>,
}

impl View for Parser {
    type V = ParserView;

    closed spec fn view(&self) -> ParserView {
        ParserView {
            tokens: if self.tok is Eof {
                Seq::empty()
            } else {
                seq![(self.tok@, self.pos as nat)] + self.lexer@.tokens()
            },
            eof: self.lexer@.end_pos(),
            errors: errors_view(self.errors@),
        }
    }
}

/// The tree and the errors of a text are those of every text with the
/// same characters: whoever scans and parses a text again finds the same
/// tokens at the same offsets, the same tree and the same errors.
pub proof fn theorem_same_source_same_result(first: Seq<char>, second: Seq<char>)
    requires
        first == second,
    ensures
        LexerView::start(first).tokens() == LexerView::start(second).tokens(),
        grammar::parse_source(first) == grammar::parse_source(second),
{
}

/// What a parser made for a scanner at the start of the text `chars`
/// gives for the whole text is the tree and the errors of `chars`.
pub proof fn theorem_parse_of_source(
    chars: Seq<char>,
    lexer: Lexer,
    before: Parser,
    file: File,
    after: Parser,
)
    requires
        lexer@ == LexerView::start(chars),
        before@ == ParserView::start(lexer@),
        (file@, after@) == grammar::parse_file(before@),
    ensures
        (file@, after@.errors) == grammar::parse_source(chars),
{
}

impl Parser {
    /// The validity of a parser: its scanner is valid, and once it has
    /// read `Eof` the scanner has nothing left.
    pub closed spec fn wf(&self) -> bool {
        &&& self.lexer.wf()
        &&& self.tok is Eof ==> self.lexer@.scan().token is Eof && self.pos
            == self.lexer@.end_pos()
    }

    /// A parser at the first token that `lexer` yields.
    pub fn new(lexer: Lexer) -> (p: Parser)
        requires
            lexer.wf(),
        ensures
            p.wf(),
            p@ == ParserView::start(lexer@),
    {
        let mut p = Parser { tok: Token::Illegal, pos: 0, lexer, errors: Vec::new() };
        proof {
            assert(p@.tokens.drop_first() =~= lexer@.tokens());
            assert(p@.errors =~= Seq::empty());
        }
        p.next();
        p
    }

    /// Parses the source to its end. The result holds every statement
    /// read; what could not be read is recorded in `errors`, and a `Bad`
    /// node stands in its place.
    pub fn parse_file(&mut self) -> (file: Box<File>)
        requires
            old(self).wf(),
        ensures
            final(self).wf(),
            (file@, final(self)@) == grammar::parse_file(old(self)@),
            final(self)@.tokens.len() == 0,
    {
        let stmts = self.parse_stmts();
        Box::new(File { stmts })
    }

    /// The statements up to the end of the source.
    fn parse_stmts(&mut self) -> (r: Vec<Box<Stmt>>)
        requires
            old(self).wf(),
        ensures
            final(self).wf(),
            (stmts_view(r@), final(self)@) == grammar::parse_stmts(old(self)@),
            final(self)@.tokens.len() == 0,
    {
        let mut ret: Vec<Box<Stmt>> = Vec::new();
        proof {
            assert(stmts_view(ret@) + grammar::parse_stmts(self@).0 =~= grammar::parse_stmts(
                self@,
            ).0);
        }
        loop
            invariant
                self.wf(),
                grammar::parse_stmts(old(self)@) == (
                    stmts_view(ret@) + grammar::parse_stmts(self@).0,
                    grammar::parse_stmts(self@).1,
                ),
            ensures
                self.tok is Eof,
            decreases self@.tokens.len(),
        {
            proof {
                self.lemma_cursor();
            }
            if let Token::Eof = self.tok {
                break ;
            }
            let ghost before = self@;
            let ghost seen = stmts_view(ret@);
            let stmt = self.parse_stmt();
            ret.push(stmt);
            proof {
                assert(stmts_view(ret@) =~= seen.push(stmt@));
                assert(seen.push(stmt@) + grammar::parse_stmts(self@).0 =~= seen + (seq![stmt@]
                    + grammar::parse_stmts(self@).0));
            }
        }
        proof {
            self.lemma_cursor();
            assert(stmts_view(ret@) + Seq::empty() =~= stmts_view(ret@));
        }
        ret
    }

    /// One statement.
    fn parse_stmt(&mut self) -> (r: Box<Stmt>)
        requires
            old(self).wf(),
        ensures
            final(self).wf(),
            (r@, final(self)@) == grammar::parse_stmt(old(self)@),
            grammar::consumed(old(self)@, final(self)@),
    {
        proof {
            self.lemma_cursor();
        }
        match self.tok {
            Token::Var | Token::Val => self.parse_decl_stmt(),
            Token::Ident(_)
            | Token::Integer(_)
            | Token::Float(_)
            | Token::String(_)
            | Token::Add
            | Token::Sub => self.parse_simple_stmt(),
            _ => {
                self.error(self.pos, String::from_str("expect Statement"));
                self.next();
                Box::new(Stmt::Bad(BadStmt {  }))
            },
        }
    }

    /// Passes the semicolon that ends a statement, or records that it is
    /// missing.
    fn end_statement(&mut self)
        requires
            old(self).wf(),
        ensures
            final(self).wf(),
            final(self)@ == old(self)@.end_statement(),
    {
        proof {
            self.lemma_cursor();
        }
        if let Token::Semicolon = self.tok {
            self.next();
        } else {
            self.error(self.pos, String::from_str("expected semiclon"))
        }
    }

    /// A declaration and the semicolon that ends it.
    fn parse_decl_stmt(&mut self) -> (r: Box<Stmt>)
        requires
            old(self).wf(),
            old(self)@.tok() is Var || old(self)@.tok() is Val,
        ensures
            final(self).wf(),
            (r@, final(self)@) == grammar::parse_decl_stmt(old(self)@),
            grammar::consumed(old(self)@, final(self)@),
    {
        let decl: Box<Decl> = self.parse_decl();
        self.end_statement();
        Box::new(Stmt::Decl(DeclStmt { decl }))
    }

    /// An expression or an assignment, and the semicolon that ends it.
    fn parse_simple_stmt(&mut self) -> (r: Box<Stmt>)
        requires
            old(self).wf(),
        ensures
            final(self).wf(),
            (r@, final(self)@) == grammar::parse_simple_stmt(old(self)@),
            grammar::consumed(old(self)@, final(self)@),
    {
        let x = self.parse_expr();
        proof {
            self.lemma_cursor();
        }
        match self.tok {
            Token::Assign => {
                let pos = self.pos;
                let tok = self.tok.clone();
                self.next();
                let y = self.parse_expr();
                self.end_statement();
                return Box::new(Stmt::Assign(AssignStmt { ptr: x, pos, tok, val: y }));
            },
            _ => (),
        }
        self.end_statement();
        Box::new(Stmt::Expr(ExprStmt { x }))
    }

    /// A declaration.
    fn parse_decl(&mut self) -> (r: Box<Decl>)
        requires
            old(self).wf(),
        ensures
            final(self).wf(),
            (r@, final(self)@) == grammar::parse_decl(old(self)@),
            final(self)@.tokens.len() <= old(self)@.tokens.len(),
            old(self)@.tok() is Var || old(self)@.tok() is Val ==> grammar::consumed(
                old(self)@,
                final(self)@,
            ),
    {
        proof {
            self.lemma_cursor();
        }
        match self.tok {
            Token::Var => {
                let var_pos = self.pos;
                self.next();
                self.parse_var_decl(var_pos, true)
            },
            Token::Val => {
                let val_pos = self.pos;
                self.next();
                self.parse_var_decl(val_pos, false)
            },
            _ => {
                self.error(self.pos, String::from_str("expect Declaration"));
                Box::new(Decl::Bad(BadDecl {  }))
            },
        }
    }

    /// What follows `var` or `val`, which stood at `pos`.
    fn parse_var_decl(&mut self, pos: usize, mutable: bool) -> (r: Box<Decl>)
        requires
            old(self).wf(),
        ensures
            final(self).wf(),
            (r@, final(self)@) == grammar::parse_var_decl(old(self)@, mutable, pos as nat),
            final(self)@.tokens.len() <= old(self)@.tokens.len(),
    {
        let name = self.parse_ident();
        proof {
            self.lemma_cursor();
        }
        let (assign_pos, value) = if let Token::Assign = self.tok {
            let assign_pos = self.pos;
            self.next();
            let value = self.parse_expr();
            (assign_pos, Some(value))
        } else {
            (0, None)
        };
        if mutable {
            Box::new(Decl::Var(VarDecl { var_pos: pos, name, assign_pos, value }))
        } else {
            Box::new(Decl::Val(ValDecl { val_pos: pos, name, assign_pos, value }))
        }
    }

    /// An expression.
    fn parse_expr(&mut self) -> (r: Box<Expr>)
        requires
            old(self).wf(),
        ensures
            final(self).wf(),
            (r@, final(self)@) == grammar::parse_expr(old(self)@),
            grammar::consumed(old(self)@, final(self)@),
        decreases old(self)@.tokens.len(), 5int,
    {
        self.parse_binary_expr(LOWEST_PREC + 1)
    }

    /// An expression whose operators all bind with `prec` at least.
    fn parse_binary_expr(&mut self, prec: i32) -> (r: Box<Expr>)
        requires
            old(self).wf(),
            LOWEST_PREC < prec <= UNARY_PREC,
        ensures
            final(self).wf(),
            (r@, final(self)@) == grammar::parse_binary_expr(old(self)@, prec as int),
            grammar::consumed(old(self)@, final(self)@),
        decreases old(self)@.tokens.len(), 4int,
    {
        let mut x = self.parse_unary_expr();
        loop
            invariant
                self.wf(),
                LOWEST_PREC < prec <= UNARY_PREC,
                grammar::consumed(old(self)@, self@),
                grammar::parse_binary_rest(x@, self@, prec as int) == grammar::parse_binary_expr(
                    old(self)@,
                    prec as int,
                ),
            decreases self@.tokens.len(),
        {
            let pr = self.tok_prec();
            if pr < prec {
                return x;
            }
            proof {
                self.lemma_cursor();
            }
            let op = self.tok.clone();
            self.next();
            let y = self.parse_binary_expr(pr + 1);
            x = Box::new(Expr::Binary(BinaryExpr { x, op, y }))
        }
    }

    /// Prefix operators and the primary expression that they stand before.
    fn parse_unary_expr(&mut self) -> (r: Box<Expr>)
        requires
            old(self).wf(),
        ensures
            final(self).wf(),
            (r@, final(self)@) == grammar::parse_unary_expr(old(self)@),
            grammar::consumed(old(self)@, final(self)@),
        decreases old(self)@.tokens.len(), 3int,
    {
        proof {
            self.lemma_cursor();
        }
        match self.tok {
            Token::Add | Token::Sub => {
                let op = self.tok.clone();
                self.next();
                let x = self.parse_unary_expr();
                Box::new(Expr::Unary(UnaryExpr { op, x }))
            },
            _ => self.parse_primary_expr(),
        }
    }

    /// An operand and the calls made of it.
    fn parse_primary_expr(&mut self) -> (r: Box<Expr>)
        requires
            old(self).wf(),
        ensures
            final(self).wf(),
            (r@, final(self)@) == grammar::parse_primary_expr(old(self)@),
            grammar::consumed(old(self)@, final(self)@),
        decreases old(self)@.tokens.len(), 2int,
    {
        let mut x = self.parse_operand();
        loop
            invariant
                self.wf(),
                grammar::consumed(old(self)@, self@),
                grammar::parse_primary_rest(x@, self@) == grammar::parse_primary_expr(
                    old(self)@,
                ),
            decreases self@.tokens.len(),
        {
            proof {
                self.lemma_cursor();
            }
            match self.tok {
                Token::Lparen => x = self.parse_call_expr(x),
                _ => return x,
            }
        }
    }

    /// An identifier, a literal, or an expression between parentheses.
    fn parse_operand(&mut self) -> (r: Box<Expr>)
        requires
            old(self).wf(),
        ensures
            final(self).wf(),
            (r@, final(self)@) == grammar::parse_operand(old(self)@),
            grammar::consumed(old(self)@, final(self)@),
        decreases old(self)@.tokens.len(), 0int,
    {
        proof {
            self.lemma_cursor();
        }
        match self.tok.clone() {
            Token::Ident(lit) => {
                let pos = self.pos;
                self.next();
                Box::new(Expr::Ident(Ident { pos, name: lit }))
            },
            Token::Integer(_) | Token::Float(_) | Token::String(_) => {
                let pos = self.pos;
                let tok = self.tok.clone();
                self.next();
                Box::new(Expr::BasicLit(BasicLit { pos, tok }))
            },
            Token::Lparen => {
                let l_pos = self.pos;
                self.next();
                let x = self.parse_expr();
                proof {
                    self.lemma_cursor();
                }
                let r_pos = self.expect_rparen("expected ')'");
                Box::new(Expr::Paren(ParenExpr { l_pos, x, r_pos }))
            },
            _ => {
                self.error(self.pos, String::from_str("expect Operand"));
                self.next();
                Box::new(Expr::Bad(BadExpr {  }))
            },
        }
    }

    /// Passes `(` and gives its offset, or records `msg` and gives 0.
    fn expect_lparen(&mut self, msg: &str) -> (r: usize)
        requires
            old(self).wf(),
        ensures
            final(self).wf(),
            (r as nat, final(self)@) == old(self)@.expect(TokenView::Lparen, msg@),
    {
        proof {
            self.lemma_cursor();
        }
        if let Token::Lparen = self.tok {
            let lp = self.pos;
            self.next();
            lp
        } else {
            self.error(self.pos, String::from_str(msg));
            0
        }
    }

    /// Passes `)` and gives its offset, or records `msg` and gives 0.
    fn expect_rparen(&mut self, msg: &str) -> (r: usize)
        requires
            old(self).wf(),
        ensures
            final(self).wf(),
            (r as nat, final(self)@) == old(self)@.expect(TokenView::Rparen, msg@),
    {
        proof {
            self.lemma_cursor();
        }
        if let Token::Rparen = self.tok {
            let rp = self.pos;
            self.next();
            rp
        } else {
            self.error(self.pos, String::from_str(msg));
            0
        }
    }

    /// The call of `fun`: the arguments between two parentheses.
    fn parse_call_expr(&mut self, fun: Box<Expr>) -> (r: Box<Expr>)
        requires
            old(self).wf(),
        ensures
            final(self).wf(),
            (r@, final(self)@) == grammar::parse_call_expr(fun@, old(self)@),
            final(self)@.tokens.len() <= old(self)@.tokens.len(),
            old(self)@.tok() is Lparen ==> final(self)@.tokens.len() < old(self)@.tokens.len(),
        decreases old(self)@.tokens.len(),
            if old(self)@.tok() is Lparen {
                0int
            } else {
                6int
            },
    {
        proof {
            self.lemma_cursor();
        }
        let lp_pos = self.expect_lparen("expect Lparen");
        let args = self.parse_expr_list();
        let rp_pos = self.expect_rparen("expect Rparen");
        Box::new(Expr::Call(CallExpr { fun, lp_pos, args, rp_pos }))
    }

    /// One argument or more, with commas between them.
    fn parse_expr_list(&mut self) -> (r: Vec<Box<Expr>>)
        requires
            old(self).wf(),
        ensures
            final(self).wf(),
            (exprs_view(r@), final(self)@) == grammar::parse_expr_list(old(self)@),
            grammar::consumed(old(self)@, final(self)@),
        decreases old(self)@.tokens.len(), 4int,
    {
        let x = self.parse_unary_expr();
        let mut ret: Vec<Box<Expr>> = Vec::new();
        ret.push(x);
        proof {
            lemma_exprs_view_push(Seq::empty(), x);
            assert(ret@ =~= Seq::empty().push(x));
            assert(Seq::<ExprView>::empty().push(x@) =~= seq![x@]);
        }
        loop
            invariant
                self.wf(),
                grammar::consumed(old(self)@, self@),
                grammar::parse_expr_list_rest(exprs_view(ret@), self@) == grammar::parse_expr_list(
                    old(self)@,
                ),
            decreases self@.tokens.len(),
        {
            proof {
                self.lemma_cursor();
            }
            if let Token::Comma = self.tok {
            } else {
                return ret;
            }
            self.next();  // eat comma
            let ghost seen = ret@;
            let y = self.parse_unary_expr();
            ret.push(y);
            proof {
                lemma_exprs_view_push(seen, y);
            }
        }
    }

    /// A name.
    fn parse_ident(&mut self) -> (r: Box<Ident>)
        requires
            old(self).wf(),
        ensures
            final(self).wf(),
            ((r.pos as nat, r.name@), final(self)@) == grammar::parse_ident(old(self)@),
            final(self)@.tokens.len() <= old(self)@.tokens.len(),
    {
        proof {
            self.lemma_cursor();
        }
        let (pos, name) = if let Token::Ident(lit) = self.tok.clone() {
            let pos = self.pos;
            self.next();
            (pos, lit)
        } else {
            self.error(self.pos, String::from_str("expect Identifier"));
            (0, String::from_str("_"))
        };
        Box::new(Ident { pos, name })
    }

    /// The errors recorded so far, in the order in which they were met:
    /// each an offset and a message.
    pub fn errors(&self) -> (r: &Vec<(usize, String)>)
        ensures
            errors_view(r@) == self@.errors,
    {
        &self.errors
    }

    /// In a valid parser the cursor of the view is the token that was
    /// read ahead.
    proof fn lemma_cursor(&self)
        requires
            self.wf(),
        ensures
            self@.tok() == self.tok@,
            self@.pos() == self.pos,
            self@.tokens.len() == 0 <==> self.tok is Eof,
    {
    }

    /// Passes the token under the cursor.
    fn next(&mut self)
        requires
            old(self).wf(),
        ensures
            final(self).wf(),
            final(self)@ == old(self)@.advance(),
    {
        proof {
            self.lexer.lemma_wf();
            lemma_scan_progress(self.lexer@);
            assert((seq![(self.tok@, self.pos as nat)] + self.lexer@.tokens()).drop_first()
                =~= self.lexer@.tokens());
        }
        let t = self.lexer.lex();
        self.tok = t.0;
        self.pos = t.1;
        proof {
            assert(final(self)@.tokens =~= old(self)@.advance().tokens);
        }
    }

    /// The precedence of the token under the cursor.
    fn tok_prec(&self) -> (r: i32)
        requires
            self.wf(),
        ensures
            r == self@.tok().prec(),
            LOWEST_PREC <= r < UNARY_PREC,
    {
        proof {
            self.lemma_cursor();
        }
        self.tok.prec()
    }

    /// Records an error.
    fn error(&mut self, pos: usize, msg: String)
        requires
            old(self).wf(),
        ensures
            final(self).wf(),
            final(self)@ == (ParserView {
                errors: old(self)@.errors.push((pos as nat, msg@)),
                ..old(self)@
            }),
    {
        self.errors.push((pos, msg));
        proof {
            assert(final(self)@.errors =~= old(self)@.errors.push((pos as nat, msg@)));
        }
    }
}

} // verus!
