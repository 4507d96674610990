use vstd::prelude::*;

verus! {

/// A lexical unit of the language.
///
/// The five variants with a `String` carry the text of the token as it stood
/// in the source (for `String`, without the quotes).
#[derive(Debug, PartialEq, Eq)]
pub enum Token {
    Illegal,
    Comment(String),
    Eof,
    Ident(String),
    Integer(String),
    Float(String),
    String(String),
    Add,  // +
    Sub,  // -
    Mul,  // *
    Div,  // /
    Rem,  // %
    Assign,  // =
    Lor,  // ||
    Land,  // &&
    Lss,  // <
    Leq,  // <=
    Gtr,  // >
    Geq,  // >=
    Eql,  // ==
    Neq,  // !=
    Lparen,  // (
    Rparen,  // )
    Lbrack,  // [
    Rbrack,  // ]
    Lbrace,  // {
    Rbrace,  // }
    Comma,  // ,
    Semicolon,  // ;
    Colon,  // :
    Exel,  // !
    Fun,
    Var,
    Val,
    Import,
    Return,
}

/// The mathematical value of a [`Token`]: the same variants, with the text
/// as a sequence of characters.
pub enum TokenView {
    Illegal,
    Comment(Seq<char>),
    Eof,
    Ident(Seq<char>),
    Integer(Seq<char>),
    Float(Seq<char>),
    String(Seq<char>),
    Add,
    Sub,
    Mul,
    Div,
    Rem,
    Assign,
    Lor,
    Land,
    Lss,
    Leq,
    Gtr,
    Geq,
    Eql,
    Neq,
    Lparen,
    Rparen,
    Lbrack,
    Rbrack,
    Lbrace,
    Rbrace,
    Comma,
    Semicolon,
    Colon,
    Exel,
    Fun,
    Var,
    Val,
    Import,
    Return,
}

/// The precedence of everything that is not a binary operator.
pub const LOWEST_PREC: i32 = 0;

/// The precedence of the prefix operators.
pub const UNARY_PREC: i32 = 6;

/// A precedence above that of every operator.
pub const HIGHEST_PREC: i32 = 7;

impl TokenView {
    /// The binding strength of the token as a binary operator:
    /// `||` 1, `&&` 2, comparisons 3, `+ -` 4, `* / %` 5, and
    /// `LOWEST_PREC` for every token that is no binary operator.
    pub open spec fn prec(self) -> int {
        match self {
            TokenView::Lor => 1,
            TokenView::Land => 2,
            TokenView::Eql
            | TokenView::Neq
            | TokenView::Gtr
            | TokenView::Geq
            | TokenView::Lss
            | TokenView::Leq => 3,
            TokenView::Add | TokenView::Sub => 4,
            TokenView::Mul | TokenView::Div | TokenView::Rem => 5,
            _ => LOWEST_PREC as int,
        }
    }

    /// Whether the token is a binary operator.
    pub open spec fn is_binary_op(self) -> bool {
        self.prec() > LOWEST_PREC
    }

    /// Whether the token is one of the two prefix operators, `+` and `-`.
    pub open spec fn is_prefix_op(self) -> bool {
        self is Add || self is Sub
    }

    /// Whether the token is a literal: a numeral or a string.
    pub open spec fn is_literal(self) -> bool {
        self is Integer || self is Float || self is String
    }

    /// Whether a statement may end with this token, so that a line break
    /// after it stands for a semicolon: identifiers, literals, closing
    /// brackets and `return`.
    pub open spec fn ends_statement(self) -> bool {
        self is Ident || self is Integer || self is Float || self is String || self is Rparen
            || self is Rbrack || self is Rbrace || self is Return
    }
}

impl View for Token {
    type V = TokenView;

    open spec fn view(&self) -> TokenView {
        match self {
            Token::Illegal => TokenView::Illegal,
            Token::Comment(s) => TokenView::Comment(s@),
            Token::Eof => TokenView::Eof,
            Token::Ident(s) => TokenView::Ident(s@),
            Token::Integer(s) => TokenView::Integer(s@),
            Token::Float(s) => TokenView::Float(s@),
            Token::String(s) => TokenView::String(s@),
            Token::Add => TokenView::Add,
            Token::Sub => TokenView::Sub,
            Token::Mul => TokenView::Mul,
            Token::Div => TokenView::Div,
            Token::Rem => TokenView::Rem,
            Token::Assign => TokenView::Assign,
            Token::Lor => TokenView::Lor,
            Token::Land => TokenView::Land,
            Token::Lss => TokenView::Lss,
            Token::Leq => TokenView::Leq,
            Token::Gtr => TokenView::Gtr,
            Token::Geq => TokenView::Geq,
            Token::Eql => TokenView::Eql,
            Token::Neq => TokenView::Neq,
            Token::Lparen => TokenView::Lparen,
            Token::Rparen => TokenView::Rparen,
            Token::Lbrack => TokenView::Lbrack,
            Token::Rbrack => TokenView::Rbrack,
            Token::Lbrace => TokenView::Lbrace,
            Token::Rbrace => TokenView::Rbrace,
            Token::Comma => TokenView::Comma,
            Token::Semicolon => TokenView::Semicolon,
            Token::Colon => TokenView::Colon,
            Token::Exel => TokenView::Exel,
            Token::Fun => TokenView::Fun,
            Token::Var => TokenView::Var,
            Token::Val => TokenView::Val,
            Token::Import => TokenView::Import,
            Token::Return => TokenView::Return,
        }
    }
}

impl Clone for Token {
    fn clone(&self) -> (r: Token)
        ensures
            r == *self,
    {
        match self {
            Token::Illegal => Token::Illegal,
            Token::Comment(s) => Token::Comment(s.clone()),
            Token::Eof => Token::Eof,
            Token::Ident(s) => Token::Ident(s.clone()),
            Token::Integer(s) => Token::Integer(s.clone()),
            Token::Float(s) => Token::Float(s.clone()),
            Token::String(s) => Token::String(s.clone()),
            Token::Add => Token::Add,
            Token::Sub => Token::Sub,
            Token::Mul => Token::Mul,
            Token::Div => Token::Div,
            Token::Rem => Token::Rem,
            Token::Assign => Token::Assign,
            Token::Lor => Token::Lor,
            Token::Land => Token::Land,
            Token::Lss => Token::Lss,
            Token::Leq => Token::Leq,
            Token::Gtr => Token::Gtr,
            Token::Geq => Token::Geq,
            Token::Eql => Token::Eql,
            Token::Neq => Token::Neq,
            Token::Lparen => Token::Lparen,
            Token::Rparen => Token::Rparen,
            Token::Lbrack => Token::Lbrack,
            Token::Rbrack => Token::Rbrack,
            Token::Lbrace => Token::Lbrace,
            Token::Rbrace => Token::Rbrace,
            Token::Comma => Token::Comma,
            Token::Semicolon => Token::Semicolon,
            Token::Colon => Token::Colon,
            Token::Exel => Token::Exel,
            Token::Fun => Token::Fun,
            Token::Var => Token::Var,
            Token::Val => Token::Val,
            Token::Import => Token::Import,
            Token::Return => Token::Return,
        }
    }
}

impl Token {
    /// The binding strength of the token as a binary operator.
    pub fn prec(&self) -> (r: i32)
        ensures
            r == self@.prec(),
            LOWEST_PREC <= r < UNARY_PREC,
    {
        match self {
            Token::Lor => 1,
            Token::Land => 2,
            Token::Eql | Token::Neq | Token::Gtr | Token::Geq | Token::Lss | Token::Leq => 3,
            Token::Add | Token::Sub => 4,
            Token::Mul | Token::Div | Token::Rem => 5,
            _ => LOWEST_PREC,
        }
    }
}

} // verus!
