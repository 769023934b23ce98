//! The tokenizer: source text to a stream of `(Token, Span)` pairs.
//!
//! Tokens are read by maximal munch over the characters of the source.
//! Whitespace and comments (`// ...` and `/* ... */`) are skipped.
//! Two-character operators (`==`, `!=`, `>=`, `<=`, `->`, `&&`, `||`)
//! are folded into one token. Keywords are identifiers that spell one
//! of the reserved words. The spec functions `spec_next` and
//! `spec_tokenize` define the token stream exactly; `Lexer::next` and
//! `tokenize` are proved to produce it.

use vstd::prelude::*;
use vstd::string::StrSliceExecFns;
use crate::ast::Symbol;

verus! {

/// A half-open range `[lo, hi)` of character offsets into the source.
#[derive(Debug, Clone, Copy, PartialEq, Eq, Structural)]
pub struct Span {
    pub lo: usize,
    pub hi: usize,
}

/// One lexeme of the language.
#[derive(Debug, Clone, PartialEq)]
pub enum Token {
    Ident(String),
    Byte(u8),
    Variable,
    Mutate,
    Define,
    Declare,
    Return,
    If,
    Else,
    For,
    Pass,
    Plus,
    Minus,
    Star,
    Slash,
    Percent,
    Ampersand,
    Pipe,
    AndAnd,
    OrOr,
    Sym(Symbol),
    LParen,
    RParen,
    LBrace,
    RBrace,
    LBracket,
    RBracket,
}

/// The mathematical value of a `Token`: identifier names as character
/// sequences.
pub enum SpecToken {
    Ident(Seq<char>),
    Byte(u8),
    Variable,
    Mutate,
    Define,
    Declare,
    Return,
    If,
    Else,
    For,
    Pass,
    Plus,
    Minus,
    Star,
    Slash,
    Percent,
    Ampersand,
    Pipe,
    AndAnd,
    OrOr,
    Sym(Symbol),
    LParen,
    RParen,
    LBrace,
    RBrace,
    LBracket,
    RBracket,
}

impl View for Token {
    type V = SpecToken;

    open spec fn view(&self) -> SpecToken {
        match self {
            Token::Ident(s) => SpecToken::Ident(s@),
            Token::Byte(x) => SpecToken::Byte(*x),
            Token::Variable => SpecToken::Variable,
            Token::Mutate => SpecToken::Mutate,
            Token::Define => SpecToken::Define,
            Token::Declare => SpecToken::Declare,
            Token::Return => SpecToken::Return,
            Token::If => SpecToken::If,
            Token::Else => SpecToken::Else,
            Token::For => SpecToken::For,
            Token::Pass => SpecToken::Pass,
            Token::Plus => SpecToken::Plus,
            Token::Minus => SpecToken::Minus,
            Token::Star => SpecToken::Star,
            Token::Slash => SpecToken::Slash,
            Token::Percent => SpecToken::Percent,
            Token::Ampersand => SpecToken::Ampersand,
            Token::Pipe => SpecToken::Pipe,
            Token::AndAnd => SpecToken::AndAnd,
            Token::OrOr => SpecToken::OrOr,
            Token::Sym(s) => SpecToken::Sym(*s),
            Token::LParen => SpecToken::LParen,
            Token::RParen => SpecToken::RParen,
            Token::LBrace => SpecToken::LBrace,
            Token::RBrace => SpecToken::RBrace,
            Token::LBracket => SpecToken::LBracket,
            Token::RBracket => SpecToken::RBracket,
        }
    }
}

/// The view of a token stream: each token replaced by its value.
pub open spec fn toks_view(ts: Seq<(Token, Span)>) -> Seq<(SpecToken, Span)> {
    ts.map(|i: int, p: (Token, Span)| (p.0@, p.1))
}

pub open spec fn is_ws(c: char) -> bool {
    c == ' ' || c == '\t' || c == '\r' || c == '\n'
}

pub open spec fn is_digit(c: char) -> bool {
    '0' <= c && c <= '9'
}

pub open spec fn is_ident_start(c: char) -> bool {
    ('a' <= c && c <= 'z') || ('A' <= c && c <= 'Z') || c == '_'
}

pub open spec fn is_ident_char(c: char) -> bool {
    is_ident_start(c) || is_digit(c)
}

/// The position of the first newline at or after `pos` (or the end).
pub open spec fn line_end(s: Seq<char>, pos: int) -> int
    decreases s.len() - pos,
{
    if pos >= s.len() {
        s.len() as int
    } else if s[pos] == '\n' {
        pos
    } else {
        line_end(s, pos + 1)
    }
}

pub proof fn lemma_line_end_ge(s: Seq<char>, pos: int)
    requires
        pos <= s.len(),
    ensures
        pos <= line_end(s, pos) <= s.len(),
    decreases s.len() - pos,
{
    if pos < s.len() && s[pos] != '\n' {
        lemma_line_end_ge(s, pos + 1);
    }
}

/// The position just after the first `*/` at or after `pos`, if any.
pub open spec fn block_comment_end(s: Seq<char>, pos: int) -> Option<int>
    decreases s.len() - pos,
{
    if pos + 2 > s.len() {
        None
    } else if s[pos] == '*' && s[pos + 1] == '/' {
        Some(pos + 2)
    } else {
        block_comment_end(s, pos + 1)
    }
}

pub proof fn lemma_block_comment_end_ge(s: Seq<char>, pos: int, q: int)
    requires
        block_comment_end(s, pos) == Some(q),
    ensures
        pos + 2 <= q <= s.len(),
    decreases s.len() - pos,
{
    if !(pos + 2 > s.len()) && !(s[pos] == '*' && s[pos + 1] == '/') {
        lemma_block_comment_end_ge(s, pos + 1, q);
    }
}

/// Skips whitespace and comments starting at `pos`; the position of the
/// first character that begins a token (or the first that fits no rule).
/// An unterminated `/*` comment is not skipped: the `/` is left to be
/// read as a token.
pub open spec fn skip_trivia(s: Seq<char>, pos: int) -> int
    decreases s.len() - pos,
{
    if pos < 0 || pos >= s.len() {
        pos
    } else if is_ws(s[pos]) {
        skip_trivia(s, pos + 1)
    } else if s[pos] == '/' && pos + 1 < s.len() && s[pos + 1] == '/' {
        proof {
            lemma_line_end_ge(s, pos + 2);
        }
        skip_trivia(s, line_end(s, pos + 2))
    } else if s[pos] == '/' && pos + 1 < s.len() && s[pos + 1] == '*'
        && block_comment_end(s, pos + 2) is Some {
        proof {
            lemma_block_comment_end_ge(s, pos + 2, block_comment_end(s, pos + 2)->0);
        }
        skip_trivia(s, block_comment_end(s, pos + 2)->0)
    } else {
        pos
    }
}

pub proof fn lemma_skip_trivia_range(s: Seq<char>, pos: int)
    requires
        0 <= pos <= s.len(),
    ensures
        pos <= skip_trivia(s, pos) <= s.len(),
    decreases s.len() - pos,
{
    if pos < s.len() {
        if is_ws(s[pos]) {
            lemma_skip_trivia_range(s, pos + 1);
        } else if s[pos] == '/' && pos + 1 < s.len() && s[pos + 1] == '/' {
            lemma_line_end_ge(s, pos + 2);
            lemma_skip_trivia_range(s, line_end(s, pos + 2));
        } else if s[pos] == '/' && pos + 1 < s.len() && s[pos + 1] == '*'
            && block_comment_end(s, pos + 2) is Some {
            lemma_block_comment_end_ge(s, pos + 2, block_comment_end(s, pos + 2)->0);
            lemma_skip_trivia_range(s, block_comment_end(s, pos + 2)->0);
        }
    }
}

/// The end of the identifier whose characters start at `pos`.
pub open spec fn ident_end(s: Seq<char>, pos: int) -> int
    decreases s.len() - pos,
{
    if 0 <= pos < s.len() && is_ident_char(s[pos]) {
        ident_end(s, pos + 1)
    } else {
        pos
    }
}

pub proof fn lemma_ident_end_range(s: Seq<char>, pos: int)
    requires
        0 <= pos <= s.len(),
    ensures
        pos <= ident_end(s, pos) <= s.len(),
    decreases s.len() - pos,
{
    if pos < s.len() && is_ident_char(s[pos]) {
        lemma_ident_end_range(s, pos + 1);
    }
}

/// The end of the digit run starting at `pos`.
pub open spec fn digits_end(s: Seq<char>, pos: int) -> int
    decreases s.len() - pos,
{
    if 0 <= pos < s.len() && is_digit(s[pos]) {
        digits_end(s, pos + 1)
    } else {
        pos
    }
}

pub proof fn lemma_digits_end_range(s: Seq<char>, pos: int)
    requires
        0 <= pos <= s.len(),
    ensures
        pos <= digits_end(s, pos) <= s.len(),
    decreases s.len() - pos,
{
    if pos < s.len() && is_digit(s[pos]) {
        lemma_digits_end_range(s, pos + 1);
    }
}

pub open spec fn digit_val(c: char) -> int {
    c as int - '0' as int
}

/// The numeric value of the digits `s[pos..endp]`.
pub open spec fn digits_val(s: Seq<char>, pos: int, endp: int) -> int
    decreases endp - pos,
{
    if endp <= pos {
        0
    } else {
        digits_val(s, pos, endp - 1) * 10 + digit_val(s[endp - 1])
    }
}

/// The token spelled by an identifier lexeme: a keyword where it spells
/// one, an identifier otherwise.
pub open spec fn keyword_of(w: Seq<char>) -> SpecToken {
    if w == "var"@ {
        SpecToken::Variable
    } else if w == "mutate"@ {
        SpecToken::Mutate
    } else if w == "declare"@ {
        SpecToken::Declare
    } else if w == "define"@ {
        SpecToken::Define
    } else if w == "return"@ {
        SpecToken::Return
    } else if w == "if"@ {
        SpecToken::If
    } else if w == "else"@ {
        SpecToken::Else
    } else if w == "for"@ {
        SpecToken::For
    } else if w == "pass"@ {
        SpecToken::Pass
    } else {
        SpecToken::Ident(w)
    }
}

/// The token that starts exactly at `pos` (no leading trivia), and the
/// position just after it; `None` where no token fits, including a
/// numeric literal that does not fit in a byte.
pub open spec fn spec_token_at(s: Seq<char>, pos: int) -> Option<(SpecToken, int)>
    recommends
        0 <= pos < s.len(),
{
    let c = s[pos];
    let two = pos + 1 < s.len();
    if is_ident_start(c) {
        Some((keyword_of(s.subrange(pos, ident_end(s, pos))), ident_end(s, pos)))
    } else if is_digit(c) {
        let q = digits_end(s, pos);
        let v = digits_val(s, pos, q);
        if v <= 255 {
            Some((SpecToken::Byte(v as u8), q))
        } else {
            None
        }
    } else if c == '=' {
        if two && s[pos + 1] == '=' {
            Some((SpecToken::Sym(Symbol::Equality), pos + 2))
        } else {
            Some((SpecToken::Sym(Symbol::Equal), pos + 1))
        }
    } else if c == '!' {
        if two && s[pos + 1] == '=' {
            Some((SpecToken::Sym(Symbol::InEquality), pos + 2))
        } else {
            Some((SpecToken::Sym(Symbol::Bang), pos + 1))
        }
    } else if c == '>' {
        if two && s[pos + 1] == '=' {
            Some((SpecToken::Sym(Symbol::GreaterEqual), pos + 2))
        } else {
            Some((SpecToken::Sym(Symbol::Greater), pos + 1))
        }
    } else if c == '<' {
        if two && s[pos + 1] == '=' {
            Some((SpecToken::Sym(Symbol::LessEqual), pos + 2))
        } else {
            Some((SpecToken::Sym(Symbol::Less), pos + 1))
        }
    } else if c == '-' {
        if two && s[pos + 1] == '>' {
            Some((SpecToken::Sym(Symbol::Arrow), pos + 2))
        } else {
            Some((SpecToken::Minus, pos + 1))
        }
    } else if c == '&' {
        if two && s[pos + 1] == '&' {
            Some((SpecToken::AndAnd, pos + 2))
        } else {
            Some((SpecToken::Ampersand, pos + 1))
        }
    } else if c == '|' {
        if two && s[pos + 1] == '|' {
            Some((SpecToken::OrOr, pos + 2))
        } else {
            Some((SpecToken::Pipe, pos + 1))
        }
    } else if c == '+' {
        Some((SpecToken::Plus, pos + 1))
    } else if c == '*' {
        Some((SpecToken::Star, pos + 1))
    } else if c == '/' {
        Some((SpecToken::Slash, pos + 1))
    } else if c == '%' {
        Some((SpecToken::Percent, pos + 1))
    } else if c == ';' {
        Some((SpecToken::Sym(Symbol::SemiColon), pos + 1))
    } else if c == ':' {
        Some((SpecToken::Sym(Symbol::Colon), pos + 1))
    } else if c == '(' {
        Some((SpecToken::LParen, pos + 1))
    } else if c == ')' {
        Some((SpecToken::RParen, pos + 1))
    } else if c == '{' {
        Some((SpecToken::LBrace, pos + 1))
    } else if c == '}' {
        Some((SpecToken::RBrace, pos + 1))
    } else if c == '[' {
        Some((SpecToken::LBracket, pos + 1))
    } else if c == ']' {
        Some((SpecToken::RBracket, pos + 1))
    } else {
        None
    }
}

pub proof fn lemma_token_at_range(s: Seq<char>, pos: int, t: SpecToken, q: int)
    requires
        0 <= pos < s.len(),
        spec_token_at(s, pos) == Some((t, q)),
    ensures
        pos < q <= s.len(),
{
    lemma_ident_end_range(s, pos + 1);
    lemma_digits_end_range(s, pos + 1);
    if is_ident_start(s[pos]) {
        assert(ident_end(s, pos) == ident_end(s, pos + 1));
    }
    if is_digit(s[pos]) {
        assert(digits_end(s, pos) == digits_end(s, pos + 1));
    }
}

/// One step of the lexer from `pos`: the next token, the end of the
/// stream, or a stuck position where no token fits.
pub enum SpecLexStep {
    Tok(SpecToken, Span, int),
    End(int),
    Stuck(int),
}

pub open spec fn spec_next(s: Seq<char>, pos: int) -> SpecLexStep {
    let p = skip_trivia(s, pos);
    if p >= s.len() {
        SpecLexStep::End(p)
    } else {
        match spec_token_at(s, p) {
            Some((t, q)) => SpecLexStep::Tok(t, Span { lo: p as usize, hi: q as usize }, q),
            None => SpecLexStep::Stuck(p),
        }
    }
}

/// The whole token stream from `pos`, or the position where the lexer
/// gets stuck.
pub open spec fn spec_tokenize(s: Seq<char>, pos: int) -> Result<Seq<(SpecToken, Span)>, int>
    decreases s.len() - pos,
{
    if pos < 0 || pos > s.len() {
        Err(pos)
    } else {
        match spec_next(s, pos) {
            SpecLexStep::End(_) => Ok(Seq::empty()),
            SpecLexStep::Stuck(p) => Err(p),
            SpecLexStep::Tok(t, sp, q) => {
                proof {
                    lemma_skip_trivia_range(s, pos);
                    if skip_trivia(s, pos) < s.len() {
                        lemma_token_at_range(s, skip_trivia(s, pos), t, q);
                    }
                }
                if pos < q <= s.len() {
                    match spec_tokenize(s, q) {
                        Ok(rest) => Ok(seq![(t, sp)] + rest),
                        Err(p) => Err(p),
                    }
                } else {
                    Err(pos)
                }
            },
        }
    }
}

/// The lexer: a cursor over the source text.
pub struct Lexer<'a> {
    pub original: &'a str,
    pub pos: usize,
}

/// A failed tokenization: `pos` is the character offset at which no
/// token fits (a stray character, or a numeric literal over 255).
#[derive(Debug, Clone, Copy, PartialEq, Eq, Structural)]
pub struct LexError {
    pub pos: usize,
}

impl<'a> Lexer<'a> {
    pub open spec fn wf(&self) -> bool {
        self.pos <= self.original@.len()
    }

    pub fn new(s: &'a str) -> (l: Lexer<'a>)
        ensures
            l.original@ == s@,
            l.pos == 0,
            l.wf(),
    {
        Lexer { original: s, pos: 0 }
    }

    /// The next token of the stream, skipping whitespace and comments;
    /// `None` at the end of the source or where no token fits, the
    /// cursor left at the offending position.
    pub fn next(&mut self) -> (r: Option<(Token, Span)>)
        requires
            old(self).wf(),
        ensures
            final(self).wf(),
            final(self).original@ == old(self).original@,
            final(self).pos >= old(self).pos,
            match spec_next(old(self).original@, old(self).pos as int) {
                SpecLexStep::Tok(t, sp, q) => {
                    &&& r matches Some(pair) && pair.0@ == t && pair.1 == sp
                    &&& final(self).pos as int == q
                    &&& old(self).pos < q
                },
                SpecLexStep::End(p) => r is None && final(self).pos as int == p,
                SpecLexStep::Stuck(p) => r is None && final(self).pos as int == p,
            },
    {
        let s = self.original;
        let len = s.unicode_len();
        let p = skip_trivia_exec(s, self.pos, len);
        self.pos = p;
        if p >= len {
            return None;
        }
        proof {
            lemma_token_at_advance_helper(s@, p as int);
        }
        let c = s.get_char(p);
        let two = p + 1 < len;
        if ('a' <= c && c <= 'z') || ('A' <= c && c <= 'Z') || c == '_' {
            let q = ident_end_exec(s, p, len);
            proof {
                lemma_ident_end_range(s@, p as int + 1);
            }
            let t = keyword_or_ident(s, p, q);
            self.pos = q;
            Some((t, Span { lo: p, hi: q }))
        } else if '0' <= c && c <= '9' {
            let q = digits_end_exec(s, p, len);
            proof {
                lemma_digits_end_range(s@, p as int + 1);
                lemma_digits_end_chars(s@, p as int);
            }
            let v = digits_value(s, p, q);
            if v > 255 {
                self.pos = p;
                None
            } else {
                self.pos = q;
                Some((Token::Byte(v as u8), Span { lo: p, hi: q }))
            }
        } else if c == '=' {
            if two && s.get_char(p + 1) == '=' {
                self.pos = p + 2;
                Some((Token::Sym(Symbol::Equality), Span { lo: p, hi: p + 2 }))
            } else {
                self.pos = p + 1;
                Some((Token::Sym(Symbol::Equal), Span { lo: p, hi: p + 1 }))
            }
        } else if c == '!' {
            if two && s.get_char(p + 1) == '=' {
                self.pos = p + 2;
                Some((Token::Sym(Symbol::InEquality), Span { lo: p, hi: p + 2 }))
            } else {
                self.pos = p + 1;
                Some((Token::Sym(Symbol::Bang), Span { lo: p, hi: p + 1 }))
            }
        } else if c == '>' {
            if two && s.get_char(p + 1) == '=' {
                self.pos = p + 2;
                Some((Token::Sym(Symbol::GreaterEqual), Span { lo: p, hi: p + 2 }))
            } else {
                self.pos = p + 1;
                Some((Token::Sym(Symbol::Greater), Span { lo: p, hi: p + 1 }))
            }
        } else if c == '<' {
            if two && s.get_char(p + 1) == '=' {
                self.pos = p + 2;
                Some((Token::Sym(Symbol::LessEqual), Span { lo: p, hi: p + 2 }))
            } else {
                self.pos = p + 1;
                Some((Token::Sym(Symbol::Less), Span { lo: p, hi: p + 1 }))
            }
        } else if c == '-' {
            if two && s.get_char(p + 1) == '>' {
                self.pos = p + 2;
                Some((Token::Sym(Symbol::Arrow), Span { lo: p, hi: p + 2 }))
            } else {
                self.pos = p + 1;
                Some((Token::Minus, Span { lo: p, hi: p + 1 }))
            }
        } else if c == '&' {
            if two && s.get_char(p + 1) == '&' {
                self.pos = p + 2;
                Some((Token::AndAnd, Span { lo: p, hi: p + 2 }))
            } else {
                self.pos = p + 1;
                Some((Token::Ampersand, Span { lo: p, hi: p + 1 }))
            }
        } else if c == '|' {
            if two && s.get_char(p + 1) == '|' {
                self.pos = p + 2;
                Some((Token::OrOr, Span { lo: p, hi: p + 2 }))
            } else {
                self.pos = p + 1;
                Some((Token::Pipe, Span { lo: p, hi: p + 1 }))
            }
        } else if c == '+' {
            self.pos = p + 1;
            Some((Token::Plus, Span { lo: p, hi: p + 1 }))
        } else if c == '*' {
            self.pos = p + 1;
            Some((Token::Star, Span { lo: p, hi: p + 1 }))
        } else if c == '/' {
            self.pos = p + 1;
            Some((Token::Slash, Span { lo: p, hi: p + 1 }))
        } else if c == '%' {
            self.pos = p + 1;
            Some((Token::Percent, Span { lo: p, hi: p + 1 }))
        } else if c == ';' {
            self.pos = p + 1;
            Some((Token::Sym(Symbol::SemiColon), Span { lo: p, hi: p + 1 }))
        } else if c == ':' {
            self.pos = p + 1;
            Some((Token::Sym(Symbol::Colon), Span { lo: p, hi: p + 1 }))
        } else if c == '(' {
            self.pos = p + 1;
            Some((Token::LParen, Span { lo: p, hi: p + 1 }))
        } else if c == ')' {
            self.pos = p + 1;
            Some((Token::RParen, Span { lo: p, hi: p + 1 }))
        } else if c == '{' {
            self.pos = p + 1;
            Some((Token::LBrace, Span { lo: p, hi: p + 1 }))
        } else if c == '}' {
            self.pos = p + 1;
            Some((Token::RBrace, Span { lo: p, hi: p + 1 }))
        } else if c == '[' {
            self.pos = p + 1;
            Some((Token::LBracket, Span { lo: p, hi: p + 1 }))
        } else if c == ']' {
            self.pos = p + 1;
            Some((Token::RBracket, Span { lo: p, hi: p + 1 }))
        } else {
            self.pos = p;
            None
        }
    }
}

/// Trivial helper so the ident/digit branches line up with
/// `spec_token_at`'s view of the first character.
proof fn lemma_token_at_advance_helper(s: Seq<char>, p: int)
    requires
        0 <= p < s.len(),
    ensures
        is_ident_start(s[p]) ==> ident_end(s, p) == ident_end(s, p + 1),
        is_digit(s[p]) ==> digits_end(s, p) == digits_end(s, p + 1),
{
}

/// All characters of the run `[pos, digits_end(s, pos))` are digits.
proof fn lemma_digits_end_chars(s: Seq<char>, pos: int)
    requires
        0 <= pos <= s.len(),
    ensures
        forall|j: int| pos <= j < digits_end(s, pos) ==> is_digit(#[trigger] s[j]),
        pos <= digits_end(s, pos) <= s.len(),
    decreases s.len() - pos,
{
    lemma_digits_end_range(s, pos);
    if pos < s.len() && is_digit(s[pos]) {
        lemma_digits_end_chars(s, pos + 1);
    }
}

/// Advances past whitespace and comments.
fn skip_trivia_exec(s: &str, pos: usize, len: usize) -> (p: usize)
    requires
        pos <= s@.len(),
        len == s@.len(),
    ensures
        p as int == skip_trivia(s@, pos as int),
        pos <= p <= len,
{
    let mut p = pos;
    proof {
        lemma_skip_trivia_range(s@, pos as int);
    }
    loop
        invariant_except_break
            pos <= p <= len,
            len == s@.len(),
            skip_trivia(s@, pos as int) == skip_trivia(s@, p as int),
        ensures
            p as int == skip_trivia(s@, pos as int),
            pos <= p <= len,
        decreases s@.len() - p,
    {
        if p >= len {
            break ;
        }
        let c = s.get_char(p);
        if c == ' ' || c == '\t' || c == '\r' || c == '\n' {
            p = p + 1;
        } else if c == '/' && p + 1 < len {
            let c2 = s.get_char(p + 1);
            if c2 == '/' {
                let mut q = p + 2;
                while q < len && s.get_char(q) != '\n'
                    invariant
                        p + 2 <= q <= len,
                        len == s@.len(),
                        line_end(s@, p + 2) == line_end(s@, q as int),
                    decreases len - q,
                {
                    q = q + 1;
                }
                proof {
                    lemma_skip_trivia_range(s@, q as int);
                }
                p = q;
            } else if c2 == '*' {
                let mut q = p + 2;
                let mut closed = false;
                loop
                    invariant_except_break
                        p + 2 <= q,
                        q <= len,
                        len == s@.len(),
                        !closed,
                        block_comment_end(s@, p + 2) == block_comment_end(s@, q as int),
                    ensures
                        closed ==> block_comment_end(s@, p + 2) == Some(q as int) && p + 2 <= q
                            <= len,
                        !closed ==> block_comment_end(s@, p + 2) is None,
                    decreases s@.len() - q,
                {
                    if len - q < 2 {
                        break ;
                    }
                    if s.get_char(q) == '*' && s.get_char(q + 1) == '/' {
                        q = q + 2;
                        closed = true;
                        break ;
                    }
                    q = q + 1;
                }
                if closed {
                    proof {
                        lemma_skip_trivia_range(s@, q as int);
                    }
                    p = q;
                } else {
                    break ;
                }
            } else {
                break ;
            }
        } else {
            break ;
        }
    }
    p
}

/// Scans to the end of an identifier run.
fn ident_end_exec(s: &str, pos: usize, len: usize) -> (q: usize)
    requires
        pos <= s@.len(),
        len == s@.len(),
    ensures
        q as int == ident_end(s@, pos as int),
        pos <= q <= len,
{
    let mut q = pos;
    proof {
        lemma_ident_end_range(s@, pos as int);
    }
    loop
        invariant_except_break
            pos <= q <= len,
            len == s@.len(),
            ident_end(s@, pos as int) == ident_end(s@, q as int),
        ensures
            q as int == ident_end(s@, pos as int),
            pos <= q <= len,
        decreases s@.len() - q,
    {
        if q >= len {
            break ;
        }
        let c = s.get_char(q);
        if (('a' <= c && c <= 'z') || ('A' <= c && c <= 'Z') || c == '_') || ('0' <= c && c
            <= '9') {
            q = q + 1;
        } else {
            break ;
        }
    }
    q
}

/// Scans to the end of a digit run.
fn digits_end_exec(s: &str, pos: usize, len: usize) -> (q: usize)
    requires
        pos <= s@.len(),
        len == s@.len(),
    ensures
        q as int == digits_end(s@, pos as int),
        pos <= q <= len,
{
    let mut q = pos;
    proof {
        lemma_digits_end_range(s@, pos as int);
    }
    loop
        invariant_except_break
            pos <= q <= len,
            len == s@.len(),
            digits_end(s@, pos as int) == digits_end(s@, q as int),
        ensures
            q as int == digits_end(s@, pos as int),
            pos <= q <= len,
        decreases s@.len() - q,
    {
        if q >= len {
            break ;
        }
        let c = s.get_char(q);
        if '0' <= c && c <= '9' {
            q = q + 1;
        } else {
            break ;
        }
    }
    q
}

/// Whether `s[lo..hi]` spells exactly the word `w`.
pub(crate) fn str_range_eq(s: &str, lo: usize, hi: usize, w: &str) -> (r: bool)
    requires
        lo <= hi <= s@.len(),
    ensures
        r == (s@.subrange(lo as int, hi as int) == w@),
{
    let wlen = w.unicode_len();
    if hi - lo != wlen {
        proof {
            assert(s@.subrange(lo as int, hi as int).len() != w@.len());
        }
        return false;
    }
    let mut i: usize = 0;
    while i < wlen
        invariant
            i <= wlen,
            wlen == w@.len(),
            hi - lo == wlen,
            lo <= hi <= s@.len(),
            forall|j: int| 0 <= j < i ==> s@[lo + j] == w@[j],
        decreases wlen - i,
    {
        if s.get_char(lo + i) != w.get_char(i) {
            proof {
                assert(s@.subrange(lo as int, hi as int)[i as int] == s@[lo + i]);
            }
            return false;
        }
        i = i + 1;
    }
    proof {
        assert(s@.subrange(lo as int, hi as int) =~= w@);
    }
    true
}

/// The keyword or identifier token spelled by `s[lo..hi]`.
fn keyword_or_ident(s: &str, lo: usize, hi: usize) -> (t: Token)
    requires
        lo <= hi <= s@.len(),
    ensures
        t@ == keyword_of(s@.subrange(lo as int, hi as int)),
{
    if str_range_eq(s, lo, hi, "var") {
        Token::Variable
    } else if str_range_eq(s, lo, hi, "mutate") {
        Token::Mutate
    } else if str_range_eq(s, lo, hi, "declare") {
        Token::Declare
    } else if str_range_eq(s, lo, hi, "define") {
        Token::Define
    } else if str_range_eq(s, lo, hi, "return") {
        Token::Return
    } else if str_range_eq(s, lo, hi, "if") {
        Token::If
    } else if str_range_eq(s, lo, hi, "else") {
        Token::Else
    } else if str_range_eq(s, lo, hi, "for") {
        Token::For
    } else if str_range_eq(s, lo, hi, "pass") {
        Token::Pass
    } else {
        Token::Ident(s.substring_char(lo, hi).to_owned())
    }
}

/// The value of the digit run `s[lo..hi]`, capped at 256 where it
/// exceeds a byte.
fn digits_value(s: &str, lo: usize, hi: usize) -> (v: u16)
    requires
        lo <= hi <= s@.len(),
        forall|j: int| lo <= j < hi ==> is_digit(#[trigger] s@[j]),
    ensures
        v as int == (if digits_val(s@, lo as int, hi as int) > 255 {
            256int
        } else {
            digits_val(s@, lo as int, hi as int)
        }),
{
    let mut v: u16 = 0;
    let mut i = lo;
    while i < hi
        invariant
            lo <= i <= hi <= s@.len(),
            forall|j: int| lo <= j < hi ==> is_digit(#[trigger] s@[j]),
            v as int == (if digits_val(s@, lo as int, i as int) > 255 {
                256int
            } else {
                digits_val(s@, lo as int, i as int)
            }),
        decreases hi - i,
    {
        let c = s.get_char(i);
        proof {
            assert(is_digit(s@[i as int]));
        }
        let d = (c as u16) - ('0' as u16);
        if v <= 255 {
            v = v * 10 + d;
            if v > 255 {
                v = 256;
            }
        }
        i = i + 1;
    }
    v
}

/// Tokenizes the whole source; `Err` names the position where no token
/// fits.
pub fn tokenize(src: &str) -> (r: Result<Vec<(Token, Span)>, LexError>)
    ensures
        match spec_tokenize(src@, 0) {
            Ok(ts) => r matches Ok(v) && toks_view(v@) == ts,
            Err(p) => r matches Err(e) && e.pos as int == p,
        },
{
    let mut lx = Lexer::new(src);
    let len = src.unicode_len();
    let mut out: Vec<(Token, Span)> = Vec::new();
    let ghost s = src@;
    loop
        invariant_except_break
            lx.wf(),
            lx.original@ == s,
            s == src@,
            len == s.len(),
            spec_tokenize(s, 0) == (match spec_tokenize(s, lx.pos as int) {
                Ok(rest) => Ok::<Seq<(SpecToken, Span)>, int>(toks_view(out@) + rest),
                Err(p) => Err::<Seq<(SpecToken, Span)>, int>(p),
            }),
        ensures
            match spec_tokenize(s, 0) {
                Ok(ts) => out@.len() >= 0 && toks_view(out@) == ts && lx.pos == len,
                Err(p) => lx.pos as int == p && lx.pos < len,
            },
        decreases s.len() - lx.pos,
    {
        let ghost pos0 = lx.pos as int;
        let r = lx.next();
        match r {
            Some(tsp) => {
                proof {
                    let step = spec_next(s, pos0);
                    assert(step is Tok);
                    let rest_q = spec_tokenize(s, lx.pos as int);
                    if rest_q is Ok {
                        assert(toks_view(out@.push(tsp)) =~= toks_view(out@) + seq![
                            (tsp.0@, tsp.1),
                        ]);
                        assert(toks_view(out@) + (seq![(tsp.0@, tsp.1)] + rest_q->Ok_0)
                            =~= toks_view(out@.push(tsp)) + rest_q->Ok_0);
                    }
                }
                out.push(tsp);
            },
            None => {
                break ;
            },
        }
    }
    if lx.pos >= len {
        Ok(out)
    } else {
        Err(LexError { pos: lx.pos })
    }
}

} // verus!
