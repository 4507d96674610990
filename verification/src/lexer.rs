use crate::token::{Token, TokenView};
use vstd::prelude::*;
use vstd::string::StringExecFns;
use vstd::utf8::{encode_scalar, encode_utf8};

verus! {

/// The mathematical state of a [`Lexer`]: the source as characters, the
/// index of the character that is read next, and whether a line break at
/// this point ends a statement.
pub struct LexerView {
    pub chars: Seq<char>,
    pub index: nat,
    pub insert_semi: bool,
}

/// What one scanning step yields: a token, the byte offset at which it
/// starts, and the state in which the scan goes on.
pub struct Scanned {
    pub token: TokenView,
    pub pos: nat,
    pub next: LexerView,
}

/// The number of bytes that `c` takes in UTF-8.
pub open spec fn utf8_width(c: char) -> nat {
    if (c as u32) < 0x80 {
        1
    } else if (c as u32) < 0x800 {
        2
    } else if (c as u32) < 0x10000 {
        3
    } else {
        4
    }
}

/// The byte offset, in the UTF-8 text of `chars`, of the character with
/// index `index`; for `index == chars.len()`, the length of the text.
pub open spec fn byte_offset(chars: Seq<char>, index: int) -> nat {
    encode_utf8(chars.take(index)).len()
}

/// The letters: `a` to `z` and `A` to `Z`.
pub open spec fn letter(c: char) -> bool {
    ('a' <= c && c <= 'z') || ('A' <= c && c <= 'Z')
}

/// The digits: `0` to `9`.
pub open spec fn digit(c: char) -> bool {
    '0' <= c && c <= '9'
}

/// The characters an identifier is made of.
pub open spec fn ident_char(c: char) -> bool {
    letter(c) || digit(c) || c == '_'
}

/// The characters a numeral is made of, after its first digit.
pub open spec fn number_char(c: char) -> bool {
    digit(c) || c == '.' || c == '_'
}

/// The characters that stand inside a string literal: all but the quote
/// and the line break.
pub open spec fn string_char(c: char) -> bool {
    c != '"' && c != '\n'
}

/// The characters that separate tokens. A line break is one of them only
/// where it does not end a statement.
pub open spec fn blank(c: char, insert_semi: bool) -> bool {
    c == ' ' || c == '\t' || c == '\r' || (c == '\n' && !insert_semi)
}

/// The end of the longest run of characters of `class` that starts at
/// `start`: the index of the first character from `start` on that is not
/// of `class`, or the length of `chars` if there is none.
pub open spec fn run_end(chars: Seq<char>, start: int, class: spec_fn(char) -> bool) -> int
    decreases chars.len() - start,
{
    if 0 <= start < chars.len() && class(chars[start]) {
        run_end(chars, start + 1, class)
    } else {
        start
    }
}

/// The keyword that `text` spells, or the identifier `text`.
pub open spec fn keyword_or_ident(text: Seq<char>) -> TokenView {
    if text == "fun"@ {
        TokenView::Fun
    } else if text == "var"@ {
        TokenView::Var
    } else if text == "val"@ {
        TokenView::Val
    } else if text == "import"@ {
        TokenView::Import
    } else if text == "return"@ {
        TokenView::Return
    } else {
        TokenView::Ident(text)
    }
}

/// The token that the single character `c` stands for, `Illegal` if none.
pub open spec fn punctuation(c: char) -> TokenView {
    if c == '(' {
        TokenView::Lparen
    } else if c == ')' {
        TokenView::Rparen
    } else if c == '[' {
        TokenView::Lbrack
    } else if c == ']' {
        TokenView::Rbrack
    } else if c == '{' {
        TokenView::Lbrace
    } else if c == '}' {
        TokenView::Rbrace
    } else if c == ',' {
        TokenView::Comma
    } else if c == ';' {
        TokenView::Semicolon
    } else if c == ':' {
        TokenView::Colon
    } else if c == '!' {
        TokenView::Exel
    } else if c == '=' {
        TokenView::Assign
    } else if c == '+' {
        TokenView::Add
    } else if c == '-' {
        TokenView::Sub
    } else if c == '*' {
        TokenView::Mul
    } else if c == '/' {
        TokenView::Div
    } else if c == '%' {
        TokenView::Rem
    } else {
        TokenView::Illegal
    }
}

impl LexerView {
    /// The state in which the scan of `chars` begins.
    pub open spec fn start(chars: Seq<char>) -> LexerView {
        LexerView { chars, index: 0, insert_semi: false }
    }

    /// The state after a token that ends at `index`.
    pub open spec fn after(self, index: int, insert_semi: bool) -> LexerView {
        LexerView { chars: self.chars, index: index as nat, insert_semi }
    }

    /// The byte offset at which the source ends, where `Eof` is reported.
    pub open spec fn end_pos(self) -> nat {
        byte_offset(self.chars, self.chars.len() as int)
    }

    /// One scanning step.
    ///
    /// Blanks are passed over. At the end of the source, and at a line
    /// break that was not passed over, the step yields a `Semicolon` that
    /// stands in no source text if `insert_semi` is set, and `Eof` at the
    /// end otherwise. An identifier and a numeral are the longest run of
    /// their characters; a string ends with the next quote, which belongs
    /// to it, or before the next line break or the end of the source.
    /// After the step `insert_semi` says whether the token may end a
    /// statement.
    pub open spec fn scan(self) -> Scanned {
        let chars = self.chars;
        let i = run_end(chars, self.index as int, |c: char| blank(c, self.insert_semi));
        let pos = byte_offset(chars, i);
        if i >= chars.len() {
            Scanned {
                token: if self.insert_semi {
                    TokenView::Semicolon
                } else {
                    TokenView::Eof
                },
                pos,
                next: self.after(i, false),
            }
        } else if letter(chars[i]) || chars[i] == '_' {
            let end = run_end(chars, i, |c: char| ident_char(c));
            let token = keyword_or_ident(chars.subrange(i, end));
            Scanned { token, pos, next: self.after(end, token.ends_statement()) }
        } else if digit(chars[i]) {
            let end = run_end(chars, i, |c: char| number_char(c));
            Scanned {
                token: TokenView::Integer(chars.subrange(i, end)),
                pos,
                next: self.after(end, true),
            }
        } else if chars[i] == '\n' {
            Scanned { token: TokenView::Semicolon, pos, next: self.after(i + 1, false) }
        } else if chars[i] == '"' {
            let end = run_end(chars, i + 1, |c: char| string_char(c));
            let closed = end < chars.len() && chars[end] == '"';
            Scanned {
                token: TokenView::String(chars.subrange(i + 1, end)),
                pos,
                next: self.after(
                    if closed {
                        end + 1
                    } else {
                        end
                    },
                    true,
                ),
            }
        } else {
            let token = punctuation(chars[i]);
            Scanned { token, pos, next: self.after(i + 1, token.ends_statement()) }
        }
    }

    /// What bounds the number of steps before `Eof`: each step that yields
    /// another token makes it smaller.
    pub open spec fn steps_left(self) -> nat {
        (2 * (self.chars.len() - self.index) + if self.insert_semi {
            1int
        } else {
            0int
        }) as nat
    }

    /// The tokens that the scan yields from this state on, each with its
    /// byte offset, up to `Eof`, which is left out.
    pub open spec fn tokens(self) -> Seq<(TokenView, nat)>
        decreases self.steps_left(),
    {
        let step = self.scan();
        if step.token is Eof || self.index > self.chars.len() {
            Seq::empty()
        } else {
            proof {
                lemma_scan_progress(self);
            }
            seq![(step.token, step.pos)] + step.next.tokens()
        }
    }

    /// The state in which the scan rests once it has yielded `Eof`.
    pub open spec fn drained(self) -> LexerView
        decreases self.steps_left(),
    {
        let step = self.scan();
        if step.token is Eof || self.index > self.chars.len() {
            step.next
        } else {
            proof {
                lemma_scan_progress(self);
            }
            step.next.drained()
        }
    }
}

/// A run ends at or after its start and within the text; all of its
/// characters are of the class, and the character that follows is not.
pub proof fn lemma_run_end(chars: Seq<char>, start: int, class: spec_fn(char) -> bool)
    requires
        0 <= start <= chars.len(),
    ensures
        start <= run_end(chars, start, class) <= chars.len(),
        forall|k: int| start <= k < run_end(chars, start, class) ==> class(#[trigger] chars[k]),
        run_end(chars, start, class) < chars.len() ==> !class(
            chars[run_end(chars, start, class)],
        ),
    decreases chars.len() - start,
{
    if start < chars.len() && class(chars[start]) {
        lemma_run_end(chars, start + 1, class);
    }
}

/// A step stays within the source, and unless it yields `Eof` it leaves
/// fewer steps than it found.
pub proof fn lemma_scan_progress(v: LexerView)
    requires
        v.index <= v.chars.len(),
    ensures
        v.scan().next.chars == v.chars,
        v.index <= v.scan().next.index <= v.chars.len(),
        !(v.scan().token is Eof) ==> v.scan().next.steps_left() < v.steps_left(),
        v.scan().token is Eof ==> v.scan().next.scan() == v.scan(),
        v.scan().token is Eof ==> v.scan().pos == v.end_pos(),
{
    let chars = v.chars;
    let blanks = |c: char| blank(c, v.insert_semi);
    let i = run_end(chars, v.index as int, blanks);
    lemma_run_end(chars, v.index as int, blanks);
    if i < chars.len() {
        lemma_run_end(chars, i, |c: char| ident_char(c));
        lemma_run_end(chars, i, |c: char| number_char(c));
        lemma_run_end(chars, i + 1, |c: char| string_char(c));
        if letter(chars[i]) || chars[i] == '_' {
            assert(ident_char(chars[i]));
            assert(run_end(chars, i, |c: char| ident_char(c)) > i);
        } else if digit(chars[i]) {
            assert(number_char(chars[i]));
            assert(run_end(chars, i, |c: char| number_char(c)) > i);
        }
    } else {
        let after = v.after(i, false);
        assert(run_end(chars, i, |c: char| blank(c, false)) == i);
    }
}

/// After every step the scanner knows whether a line break ends a
/// statement: it does so exactly if a statement may end with the token
/// that the step gave.
pub proof fn theorem_flag_follows_token(v: LexerView)
    ensures
        v.scan().next.insert_semi == v.scan().token.ends_statement(),
{
}

/// Where only spaces, tabs and carriage returns stand between a token
/// that may end a statement and a line break or the end of the source,
/// the next token is a semicolon, at the offset of the line break or of
/// the end.
pub proof fn theorem_line_break_ends_statement(v: LexerView)
    requires
        v.index <= v.chars.len(),
        v.insert_semi,
    ensures
        ({
            let stop = run_end(v.chars, v.index as int, |c: char| blank(c, true));
            stop == v.chars.len() || v.chars[stop] == '\n' ==> v.scan().token is Semicolon
                && v.scan().pos == byte_offset(v.chars, stop) && !v.scan().next.insert_semi
        }),
{
    lemma_run_end(v.chars, v.index as int, |c: char| blank(c, true));
}

/// `Eof` is not among the tokens of a scan.
pub proof fn theorem_tokens_without_eof(v: LexerView)
    ensures
        forall|i: int| 0 <= i < v.tokens().len() ==> !((#[trigger] v.tokens()[i]).0 is Eof),
    decreases v.steps_left(),
{
    let step = v.scan();
    if !(step.token is Eof || v.index > v.chars.len()) {
        lemma_scan_progress(v);
        theorem_tokens_without_eof(step.next);
        assert forall|i: int| 0 <= i < v.tokens().len() implies !((#[trigger] v.tokens()[i]).0
            is Eof) by {
            if i > 0 {
                assert(v.tokens()[i] == step.next.tokens()[i - 1]);
            }
        }
    }
}

/// The UTF-8 text of a concatenation is the concatenation of the texts.
pub proof fn lemma_encode_concat(a: Seq<char>, b: Seq<char>)
    ensures
        encode_utf8(a + b) == encode_utf8(a) + encode_utf8(b),
    decreases a.len(),
{
    if a.len() == 0 {
        assert(a + b == b);
        assert(encode_utf8(a) + encode_utf8(b) == encode_utf8(b));
    } else {
        lemma_encode_concat(a.drop_first(), b);
        assert((a + b).drop_first() == a.drop_first() + b);
        assert(encode_utf8(a + b) == encode_scalar(a[0] as u32) + (encode_utf8(a.drop_first())
            + encode_utf8(b)));
        assert(encode_utf8(a) + encode_utf8(b) == encode_scalar(a[0] as u32) + (encode_utf8(
            a.drop_first(),
        ) + encode_utf8(b)));
    }
}

/// The offset of a character and its width give the offset of the next.
pub proof fn lemma_byte_offset_step(chars: Seq<char>, index: int)
    requires
        0 <= index < chars.len(),
    ensures
        byte_offset(chars, index + 1) == byte_offset(chars, index) + utf8_width(chars[index]),
{
    let c = chars[index];
    lemma_encode_concat(chars.take(index), seq![c]);
    assert(chars.take(index + 1) == chars.take(index) + seq![c]);
    vstd::utf8::char_is_scalar(c);
    assert(seq![c].drop_first() == Seq::<char>::empty());
    assert(encode_utf8(seq![c]) == encode_scalar(c as u32) + encode_utf8(Seq::<char>::empty()));
    assert(encode_utf8(Seq::<char>::empty()).len() == 0);
}

/// Offsets grow with the index.
pub proof fn lemma_byte_offset_bound(chars: Seq<char>, index: int)
    requires
        0 <= index <= chars.len(),
    ensures
        index <= byte_offset(chars, index) <= byte_offset(chars, chars.len() as int),
        byte_offset(chars, 0) == 0,
    decreases chars.len() - index,
{
    assert(chars.take(0) == Seq::<char>::empty());
    if index < chars.len() {
        lemma_byte_offset_bound(chars, index + 1);
        lemma_byte_offset_step(chars, index);
    }
    lemma_byte_offset_floor(chars, index);
}

/// Every character takes a byte at least.
proof fn lemma_byte_offset_floor(chars: Seq<char>, index: int)
    requires
        0 <= index <= chars.len(),
    ensures
        index <= byte_offset(chars, index),
    decreases index,
{
    if index > 0 {
        lemma_byte_offset_floor(chars, index - 1);
        lemma_byte_offset_step(chars, index - 1);
    }
}

/// `String::push` of std: the character is added at the end of the string
/// and nothing else changes.
pub assume_specification[ std::string::String::push ](s: &mut std::string::String, ch: char)
    ensures
        final(s)@ == old(s)@.push(ch),
;

/// The views of scanned tokens, in order.
pub open spec fn tokens_view(tokens: Seq<(Token, usize)>) -> Seq<(TokenView, nat)> {
    Seq::new(tokens.len(), |i: int| (tokens[i].0@, tokens[i].1 as nat))
}

/// A scanner over a source text. Each call of `lex` yields the next token
/// and the byte offset at which it starts.
pub struct Lexer {
    chars: Vec<char>,
    index: usize,
    offset: usize,
    insert_semi: bool,
}

impl View for Lexer {
    type V = LexerView;

    closed spec fn view(&self) -> LexerView {
        LexerView {
            chars: self.chars@,
            index: self.index as nat,
            insert_semi: self.insert_semi,
        }
    }
}

impl Lexer {
    /// The validity of a scanner: it stands within its source, and the
    /// offsets of the source fit the machine's integers.
    pub closed spec fn wf(&self) -> bool {
        &&& self.index <= self.chars.len()
        &&& self.offset == byte_offset(self.chars@, self.index as int)
        &&& byte_offset(self.chars@, self.chars.len() as int) <= usize::MAX
    }

    /// A valid scanner stands within its source.
    pub proof fn lemma_wf(&self)
        requires
            self.wf(),
        ensures
            self@.index <= self@.chars.len(),
            self@.end_pos() <= usize::MAX,
    {
    }

    /// A scanner at the start of `src`.
    pub fn new(src: String) -> (r: Lexer)
        ensures
            r.wf(),
            r@ == LexerView::start(src@),
    {
        let text = src.as_str();
        let byte_len = text.as_bytes().len();
        let mut chars: Vec<char> = Vec::new();
        for c in it: text.chars()
            invariant
                it.seq() == text@,
                chars@ == text@.take(it.index() as int),
        {
            proof {
                assert(text@.take(it.index() + 1) == text@.take(it.index() as int).push(c));
            }
            chars.push(c);
        }
        proof {
            assert(text@.take(text@.len() as int) == text@);
            assert(chars@.take(chars@.len() as int) == chars@);
            assert(byte_offset(chars@, chars@.len() as int) == byte_len);
            lemma_byte_offset_bound(chars@, 0);
        }
        Lexer { chars, index: 0, offset: 0, insert_semi: false }
    }

    /// All the tokens that are left, each with the byte offset at which it
    /// starts; `Eof` ends the scan and is not among them.
    pub fn lex_all(&mut self) -> (tokens: Vec<(Token, usize)>)
        requires
            old(self).wf(),
        ensures
            final(self).wf(),
            tokens_view(tokens@) == old(self)@.tokens(),
            final(self)@ == old(self)@.drained(),
    {
        let mut tokens: Vec<(Token, usize)> = Vec::new();
        loop
            invariant_except_break
                tokens_view(tokens@) + self@.tokens() == old(self)@.tokens(),
                self@.drained() == old(self)@.drained(),
            invariant
                self.wf(),
            ensures
                tokens_view(tokens@) == old(self)@.tokens(),
                self@ == old(self)@.drained(),
            decreases self@.steps_left(),
        {
            proof {
                lemma_scan_progress(self@);
            }
            let ghost before = self@;
            let ghost seen = tokens@;
            let (tok, pos) = self.lex();
            if let Token::Eof = tok {
                assert(tokens_view(tokens@) + Seq::empty() =~= tokens_view(tokens@));
                break ;
            }
            tokens.push((tok, pos));
            proof {
                assert(tokens_view(tokens@) =~= tokens_view(seen).push((tok@, pos as nat)));
                assert(tokens_view(tokens@) + self@.tokens() =~= tokens_view(seen)
                    + before.tokens());
            }
        }
        tokens
    }

    /// The next token and the byte offset at which it starts: one step of
    /// the scan. At the end of the source every call yields `Eof`.
    pub fn lex(&mut self) -> (r: (Token, usize))
        requires
            old(self).wf(),
        ensures
            final(self).wf(),
            r.0@ == old(self)@.scan().token,
            r.1 == old(self)@.scan().pos,
            final(self)@ == old(self)@.scan().next,
    {
        self.skip_white_space();
        let pos = self.offset;
        if self.index >= self.chars.len() {
            let tok = if self.insert_semi {
                Token::Semicolon
            } else {
                Token::Eof
            };
            self.insert_semi = false;
            return (tok, pos);
        }
        let ch = self.chars[self.index];
        let mut ist = false;
        let tok = if is_letter(ch) || ch == '_' {
            let (t, i) = lookup(self.lex_ident());
            if i {
                ist = i;
            }
            (t, pos)
        } else if is_number(ch) {
            ist = true;
            self.lex_number()
        } else {
            self.next();
            match ch {
                '\n' => (Token::Semicolon, pos),
                '"' => {
                    ist = true;
                    self.lex_string(pos)
                },
                '(' => (Token::Lparen, pos),
                ')' => {
                    ist = true;
                    (Token::Rparen, pos)
                },
                '[' => (Token::Lbrack, pos),
                ']' => {
                    ist = true;
                    (Token::Rbrack, pos)
                },
                '{' => (Token::Lbrace, pos),
                '}' => {
                    ist = true;
                    (Token::Rbrace, pos)
                },
                ',' => (Token::Comma, pos),
                ';' => (Token::Semicolon, pos),
                ':' => (Token::Colon, pos),
                '!' => (Token::Exel, pos),
                '=' => (Token::Assign, pos),
                '+' => (Token::Add, pos),
                '-' => (Token::Sub, pos),
                '*' => (Token::Mul, pos),
                '/' => (Token::Div, pos),
                '%' => (Token::Rem, pos),
                _ => (Token::Illegal, pos),
            }
        };
        self.insert_semi = ist;
        tok
    }

    /// Reads an identifier, which starts at the current character.
    fn lex_ident(&mut self) -> (r: Token)
        requires
            old(self).wf(),
        ensures
            final(self).wf(),
            final(self).chars == old(self).chars,
            final(self).insert_semi == old(self).insert_semi,
            final(self).index == run_end(
                old(self).chars@,
                old(self).index as int,
                |c: char| ident_char(c),
            ),
            r matches Token::Ident(lit) && lit@ == old(self).chars@.subrange(
                old(self).index as int,
                final(self).index as int,
            ),
    {
        let ghost start = self.index as int;
        let mut lit = String::new();
        while self.index < self.chars.len() && (is_letter(self.chars[self.index]) || is_dec(
            self.chars[self.index],
        ) || self.chars[self.index] == '_')
            invariant
                self.wf(),
                self.chars == old(self).chars,
                self.insert_semi == old(self).insert_semi,
                0 <= start <= self.index <= self.chars.len(),
                run_end(self.chars@, self.index as int, |c: char| ident_char(c)) == run_end(
                    self.chars@,
                    start,
                    |c: char| ident_char(c),
                ),
                lit@ == self.chars@.subrange(start, self.index as int),
            decreases self.chars.len() - self.index,
        {
            proof {
                assert(self.chars@.subrange(start, self.index + 1) =~= self.chars@.subrange(
                    start,
                    self.index as int,
                ).push(self.chars@[self.index as int]));
            }
            lit.push(self.chars[self.index]);
            self.next();
        }
        Token::Ident(lit)
    }

    /// Reads a numeral, which starts at the current character.
    fn lex_number(&mut self) -> (r: (Token, usize))
        requires
            old(self).wf(),
        ensures
            final(self).wf(),
            final(self).chars == old(self).chars,
            final(self).insert_semi == old(self).insert_semi,
            final(self).index == run_end(
                old(self).chars@,
                old(self).index as int,
                |c: char| number_char(c),
            ),
            r.0 matches Token::Integer(lit) && lit@ == old(self).chars@.subrange(
                old(self).index as int,
                final(self).index as int,
            ),
            r.1 == old(self).offset,
    {
        let pos = self.offset;
        let ghost start = self.index as int;
        let mut lit = String::new();
        while self.index < self.chars.len() && (is_number(self.chars[self.index])
            || self.chars[self.index] == '.' || self.chars[self.index] == '_')
            invariant
                self.wf(),
                self.chars == old(self).chars,
                self.insert_semi == old(self).insert_semi,
                0 <= start <= self.index <= self.chars.len(),
                run_end(self.chars@, self.index as int, |c: char| number_char(c)) == run_end(
                    self.chars@,
                    start,
                    |c: char| number_char(c),
                ),
                lit@ == self.chars@.subrange(start, self.index as int),
            decreases self.chars.len() - self.index,
        {
            proof {
                assert(self.chars@.subrange(start, self.index + 1) =~= self.chars@.subrange(
                    start,
                    self.index as int,
                ).push(self.chars@[self.index as int]));
            }
            lit.push(self.chars[self.index]);
            self.next();
        }
        (Token::Integer(lit), pos)
    }

    /// Reads a string whose opening quote, at offset `pos`, has been
    /// passed.
    fn lex_string(&mut self, pos: usize) -> (r: (Token, usize))
        requires
            old(self).wf(),
        ensures
            final(self).wf(),
            final(self).chars == old(self).chars,
            final(self).insert_semi == old(self).insert_semi,
            ({
                let chars = old(self).chars@;
                let end = run_end(chars, old(self).index as int, |c: char| string_char(c));
                &&& r.0 matches Token::String(lit) && lit@ == chars.subrange(
                    old(self).index as int,
                    end,
                )
                &&& final(self).index == if end < chars.len() && chars[end] == '"' {
                    end + 1
                } else {
                    end
                }
            }),
            r.1 == pos,
    {
        let ghost start = self.index as int;
        let ghost end = run_end(self.chars@, start, |c: char| string_char(c));
        let mut lit = String::new();
        loop
            invariant_except_break
                0 <= start <= self.index <= self.chars.len(),
                run_end(self.chars@, self.index as int, |c: char| string_char(c)) == end,
                lit@ == self.chars@.subrange(start, self.index as int),
            invariant
                self.wf(),
                self.chars == old(self).chars,
                self.insert_semi == old(self).insert_semi,
                start == old(self).index,
                end == run_end(self.chars@, start, |c: char| string_char(c)),
            ensures
                lit@ == self.chars@.subrange(start, end),
                self.index == if end < self.chars.len() && self.chars@[end] == '"' {
                    end + 1
                } else {
                    end
                },
            decreases self.chars.len() - self.index,
        {
            if self.index >= self.chars.len() {
                break ;
            }
            let c = self.chars[self.index];
            if c == '\n' {
                break ;
            }
            if c == '"' {
                self.next();
                break ;
            }
            proof {
                assert(self.chars@.subrange(start, self.index + 1) =~= self.chars@.subrange(
                    start,
                    self.index as int,
                ).push(c));
            }
            self.next();
            lit.push(c);
        }
        (Token::String(lit), pos)
    }

    /// Passes over the blanks at the current position.
    fn skip_white_space(&mut self)
        requires
            old(self).wf(),
        ensures
            final(self).wf(),
            final(self).chars == old(self).chars,
            final(self).insert_semi == old(self).insert_semi,
            final(self).index == run_end(
                old(self).chars@,
                old(self).index as int,
                |c: char| blank(c, old(self).insert_semi),
            ),
    {
        let ghost start = self.index as int;
        while self.index < self.chars.len() && (self.chars[self.index] == ' '
            || self.chars[self.index] == '\t' || (self.chars[self.index] == '\n'
            && !self.insert_semi) || self.chars[self.index] == '\r')
            invariant
                self.wf(),
                self.chars == old(self).chars,
                self.insert_semi == old(self).insert_semi,
                0 <= start <= self.index <= self.chars.len(),
                run_end(
                    self.chars@,
                    self.index as int,
                    |c: char| blank(c, old(self).insert_semi),
                ) == run_end(self.chars@, start, |c: char| blank(c, old(self).insert_semi)),
            decreases self.chars.len() - self.index,
        {
            self.next();
        }
    }

    /// Moves on by one character; at the end of the source, stays.
    fn next(&mut self)
        requires
            old(self).wf(),
        ensures
            final(self).wf(),
            final(self).chars == old(self).chars,
            final(self).insert_semi == old(self).insert_semi,
            final(self).index == if old(self).index < old(self).chars.len() {
                old(self).index + 1
            } else {
                old(self).index as int
            },
    {
        if self.index < self.chars.len() {
            proof {
                lemma_byte_offset_step(self.chars@, self.index as int);
                lemma_byte_offset_bound(self.chars@, self.index + 1);
            }
            self.offset += char_width(self.chars[self.index]);
            self.index += 1;
        }
    }
}

/// The number of bytes that `c` takes in UTF-8.
fn char_width(c: char) -> (r: usize)
    ensures
        r == utf8_width(c),
{
    let code = c as u32;
    if code < 0x80 {
        1
    } else if code < 0x800 {
        2
    } else if code < 0x10000 {
        3
    } else {
        4
    }
}

/// Whether `ch` is a letter.
fn is_letter(ch: char) -> (r: bool)
    ensures
        r == letter(ch),
{
    (ch >= 'a' && ch <= 'z') || (ch >= 'A' && ch <= 'Z')
}

/// Whether a numeral may start with `ch`.
fn is_number(ch: char) -> (r: bool)
    ensures
        r == digit(ch),
{
    is_dec(ch)
}

/// Whether `ch` is a decimal digit.
fn is_dec(ch: char) -> (r: bool)
    ensures
        r == digit(ch),
{
    ch >= '0' && ch <= '9'
}

/// Replaces an identifier that spells a keyword by the keyword, and says
/// whether a statement may end with the token.
fn lookup(tok: Token) -> (r: (Token, bool))
    ensures
        tok matches Token::Ident(lit) ==> r.0@ == keyword_or_ident(lit@) && r.1
            == r.0@.ends_statement(),
        !(tok is Ident) ==> r.0 == tok && !r.1,
{
    if let Token::Ident(lit) = tok {
        if lit == String::from_str("fun") {
            (Token::Fun, false)
        } else if lit == String::from_str("var") {
            (Token::Var, false)
        } else if lit == String::from_str("val") {
            (Token::Val, false)
        } else if lit == String::from_str("import") {
            (Token::Import, false)
        } else if lit == String::from_str("return") {
            (Token::Return, true)
        } else {
            (Token::Ident(lit), true)
        }
    } else {
        (tok, false)
    }
}

} // verus!
