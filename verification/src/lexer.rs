//! The lexer: turns source text into tokens.
use vstd::prelude::*;
use vstd::string::StrSliceExecFns;

use crate::error::{Error, ErrorOf, SpecError};
use crate::text::{
    char_is_alphanumeric, char_is_whitespace, chars_of, decimal_value, is_alphanumeric, is_ascii_digit,
    lemma_decimal_value_monotone,
    is_ascii_letter, is_white_space, push_char,
};
use crate::token::{tokens_view, SpecToken, Token, TokenOf};

verus! {

broadcast use vstd::string::group_string_axioms;

// ---------------------------------------------------------------------------
// The lexical grammar, over the characters of the source.
// ---------------------------------------------------------------------------

/// The character at `p`, if `p` is inside `cs`.
pub open spec fn char_at(cs: Seq<char>, p: int) -> Option<char> {
    if 0 <= p < cs.len() {
        Some(cs[p])
    } else {
        None
    }
}

/// Blanks that separate tokens: white space other than the line break.
pub open spec fn is_blank(c: char) -> bool {
    is_white_space(c) && c != '\n'
}

/// Characters that continue an identifier.
pub open spec fn is_ident_char(c: char) -> bool {
    is_alphanumeric(c) || c == '_'
}

/// The first position at or after `p` that holds no blank.
pub open spec fn blank_end(cs: Seq<char>, p: int) -> int
    decreases cs.len() - p,
{
    if 0 <= p < cs.len() && is_blank(cs[p]) {
        blank_end(cs, p + 1)
    } else {
        p
    }
}

/// The first position at or after `p` that holds no identifier character.
pub open spec fn ident_end(cs: Seq<char>, p: int) -> int
    decreases cs.len() - p,
{
    if 0 <= p < cs.len() && is_ident_char(cs[p]) {
        ident_end(cs, p + 1)
    } else {
        p
    }
}

/// The first line break at or after `p`, or the end of the input.
pub open spec fn line_end(cs: Seq<char>, p: int) -> int
    decreases cs.len() - p,
{
    if 0 <= p < cs.len() && cs[p] != '\n' {
        line_end(cs, p + 1)
    } else {
        p
    }
}

/// Where a number that starts at `p` ends, and whether it holds a dot:
/// digits, and at most one dot among them.
pub open spec fn number_end(cs: Seq<char>, p: int, dot: bool) -> (int, bool)
    decreases cs.len() - p,
{
    if 0 <= p < cs.len() && is_ascii_digit(cs[p]) {
        number_end(cs, p + 1, dot)
    } else if 0 <= p < cs.len() && cs[p] == '.' && !dot {
        number_end(cs, p + 1, true)
    } else {
        (p, dot)
    }
}

/// The character that an escape `\c` stands for.
pub open spec fn escaped(c: char) -> char {
    if c == 'n' {
        '\n'
    } else if c == 't' {
        '\t'
    } else {
        c
    }
}

/// The body of a string literal from `p` (just after the opening quote):
/// its characters after escapes, and the position after the closing quote
/// (or the end of the input when the literal is not closed).
pub open spec fn string_body(cs: Seq<char>, p: int, acc: Seq<char>) -> (Seq<char>, int)
    decreases cs.len() - p,
{
    if p < 0 || p >= cs.len() {
        (acc, p)
    } else if cs[p] == '"' {
        (acc, p + 1)
    } else if cs[p] == '\\' {
        if p + 1 < cs.len() {
            string_body(cs, p + 2, acc.push(escaped(cs[p + 1])))
        } else {
            (acc, p + 1)
        }
    } else {
        string_body(cs, p + 1, acc.push(cs[p]))
    }
}

/// An integer literal: its value where it fits in `i64`, else 0.
pub open spec fn integer_literal(ds: Seq<char>) -> i64 {
    if decimal_value(ds) <= i64::MAX {
        decimal_value(ds) as i64
    } else {
        0
    }
}

/// The token of a number's text.
pub open spec fn number_token(text: Seq<char>, dot: bool) -> SpecToken {
    if dot {
        TokenOf::Float(text)
    } else {
        TokenOf::Integer(integer_literal(text))
    }
}

/// The token of a word: a keyword, or else an identifier.
pub open spec fn word_token(w: Seq<char>) -> SpecToken {
    if w == "let"@ { TokenOf::Let }
    else if w == "if"@ { TokenOf::If }
    else if w == "else"@ { TokenOf::Else }
    else if w == "while"@ { TokenOf::While }
    else if w == "for"@ { TokenOf::For }
    else if w == "in"@ { TokenOf::In }
    else if w == "fn"@ { TokenOf::Function }
    else if w == "return"@ { TokenOf::Return }
    else if w == "print"@ { TokenOf::Print }
    else if w == "println"@ { TokenOf::PrintLn }
    else if w == "true"@ { TokenOf::True }
    else if w == "false"@ { TokenOf::False }
    else if w == "null"@ { TokenOf::Null }
    else if w == "break"@ { TokenOf::Break }
    else if w == "continue"@ { TokenOf::Continue }
    else if w == "import"@ { TokenOf::Import }
    else if w == "import_py"@ { TokenOf::ImportPy }
    else if w == "import_js"@ { TokenOf::ImportJs }
    else if w == "import_rs"@ { TokenOf::ImportRs }
    else if w == "class"@ { TokenOf::Class }
    else if w == "new"@ { TokenOf::New }
    else if w == "try"@ { TokenOf::Try }
    else if w == "catch"@ { TokenOf::Catch }
    else if w == "throw"@ { TokenOf::Throw }
    else if w == "this"@ { TokenOf::This }
    else if w == "download"@ { TokenOf::Download }
    else if w == "from"@ { TokenOf::From }
    else if w == "and"@ { TokenOf::And }
    else if w == "or"@ { TokenOf::Or }
    else if w == "not"@ { TokenOf::Not }
    else { TokenOf::Identifier(w) }
}

/// The message for a character that starts no token.
pub open spec fn invalid_char_message(c: char) -> Seq<char> {
    "无效字符: '"@ + seq![c, '\'']
}

/// A one-character token for `c`, if `c` is one.
pub open spec fn single_token(c: char) -> Option<SpecToken> {
    if c == '+' { Some(TokenOf::Plus) }
    else if c == '-' { Some(TokenOf::Minus) }
    else if c == '*' { Some(TokenOf::Multiply) }
    else if c == '%' { Some(TokenOf::Modulo) }
    else if c == '(' { Some(TokenOf::LParen) }
    else if c == ')' { Some(TokenOf::RParen) }
    else if c == '{' { Some(TokenOf::LBrace) }
    else if c == '}' { Some(TokenOf::RBrace) }
    else if c == '[' { Some(TokenOf::LBracket) }
    else if c == ']' { Some(TokenOf::RBracket) }
    else if c == ',' { Some(TokenOf::Comma) }
    else if c == ';' { Some(TokenOf::Semicolon) }
    else if c == '.' { Some(TokenOf::Dot) }
    else { None }
}

/// The tokens for `c` alone and for `c` followed by `=`, where `c` starts one
/// of the comparison or assignment operators.
pub open spec fn operator_tokens(c: char) -> Option<(SpecToken, SpecToken)> {
    if c == '=' { Some((TokenOf::Assign, TokenOf::Equal)) }
    else if c == '!' { Some((TokenOf::Not, TokenOf::NotEqual)) }
    else if c == '>' { Some((TokenOf::Greater, TokenOf::GreaterEqual)) }
    else if c == '<' { Some((TokenOf::Less, TokenOf::LessEqual)) }
    else { None }
}

pub proof fn lemma_line_end_ge(cs: Seq<char>, p: int)
    requires
        0 <= p,
    ensures
        p <= line_end(cs, p) <= if p <= cs.len() { cs.len() as int } else { p },
    decreases cs.len() - p,
{
    if 0 <= p < cs.len() && cs[p] != '\n' {
        lemma_line_end_ge(cs, p + 1);
    }
}

pub proof fn lemma_ident_end_ge(cs: Seq<char>, p: int)
    requires
        0 <= p,
    ensures
        p <= ident_end(cs, p) <= if p <= cs.len() { cs.len() as int } else { p },
    decreases cs.len() - p,
{
    if 0 <= p < cs.len() && is_ident_char(cs[p]) {
        lemma_ident_end_ge(cs, p + 1);
    }
}

pub proof fn lemma_blank_end_ge(cs: Seq<char>, p: int)
    requires
        0 <= p,
    ensures
        p <= blank_end(cs, p) <= if p <= cs.len() { cs.len() as int } else { p },
    decreases cs.len() - p,
{
    if 0 <= p < cs.len() && is_blank(cs[p]) {
        lemma_blank_end_ge(cs, p + 1);
    }
}

pub proof fn lemma_number_end_ge(cs: Seq<char>, p: int, dot: bool)
    requires
        0 <= p <= cs.len(),
    ensures
        p <= number_end(cs, p, dot).0 <= cs.len(),
        dot ==> number_end(cs, p, dot).1,
        !dot ==> (number_end(cs, p, dot).1 <==> cs.subrange(p, number_end(cs, p, dot).0).contains('.')),
    decreases cs.len() - p,
{
    if 0 <= p < cs.len() && is_ascii_digit(cs[p]) {
        lemma_number_end_ge(cs, p + 1, dot);
        if !dot {
            let e = number_end(cs, p, dot).0;
            let whole = cs.subrange(p, e);
            let rest = cs.subrange(p + 1, e);
            if whole.contains('.') {
                let k = choose|k: int| 0 <= k < whole.len() && whole[k] == '.';
                assert(k != 0);
                assert(rest[k - 1] == '.');
            }
            if rest.contains('.') {
                let k = choose|k: int| 0 <= k < rest.len() && rest[k] == '.';
                assert(whole[k + 1] == '.');
            }
        }
    } else if 0 <= p < cs.len() && cs[p] == '.' && !dot {
        lemma_number_end_ge(cs, p + 1, true);
        let e = number_end(cs, p, dot).0;
        assert(cs.subrange(p, e)[0] == '.');
    } else {
    }
}

pub proof fn lemma_string_body_ge(cs: Seq<char>, p: int, acc: Seq<char>)
    requires
        0 <= p,
    ensures
        p <= string_body(cs, p, acc).1 <= if p <= cs.len() { cs.len() as int } else { p },
    decreases cs.len() - p,
{
    if p < 0 || p >= cs.len() {
    } else if cs[p] == '"' {
    } else if cs[p] == '\\' {
        if p + 1 < cs.len() {
            lemma_string_body_ge(cs, p + 2, acc.push(escaped(cs[p + 1])));
        }
    } else {
        lemma_string_body_ge(cs, p + 1, acc.push(cs[p]));
    }
}

/// Lexing from position `p`, after the tokens `acc`: the tokens of the whole
/// input (ending in `EOF`) or the error, and the position where lexing stops.
pub open spec fn lex_from(cs: Seq<char>, p: int, acc: Seq<SpecToken>) -> (Result<Seq<SpecToken>, SpecError>, int)
    decreases cs.len() - p,
{
    if p < 0 || p >= cs.len() {
        (Ok(acc.push(TokenOf::EOF)), p)
    } else {
        let c = cs[p];
        if is_blank(c) {
            lex_from(cs, p + 1, acc)
        } else if c == '\n' {
            lex_from(cs, p + 1, acc.push(TokenOf::Newline))
        } else if c == '/' {
            if char_at(cs, p + 1) == Some('/') {
                let e = line_end(cs, p);
                if p < e <= cs.len() {
                    lex_from(cs, e, acc)
                } else {
                    (Ok(acc), p)  // unreachable: the comment starts with '/'
                }
            } else {
                lex_from(cs, p + 1, acc.push(TokenOf::Divide))
            }
        } else if c == '"' {
            let (body, e) = string_body(cs, p + 1, Seq::empty());
            if p < e <= cs.len() {
                lex_from(cs, e, acc.push(TokenOf::String(body)))
            } else {
                (Ok(acc), p)  // unreachable
            }
        } else if is_ascii_digit(c) {
            let (e, dot) = number_end(cs, p, false);
            if p < e <= cs.len() {
                lex_from(cs, e, acc.push(number_token(cs.subrange(p, e), dot)))
            } else {
                (Ok(acc), p)  // unreachable
            }
        } else if is_ascii_letter(c) || c == '_' {
            let e = ident_end(cs, p);
            if p < e <= cs.len() {
                lex_from(cs, e, acc.push(word_token(cs.subrange(p, e))))
            } else {
                (Ok(acc), p)  // unreachable
            }
        } else if single_token(c) is Some {
            lex_from(cs, p + 1, acc.push(single_token(c)->0))
        } else if operator_tokens(c) is Some {
            if char_at(cs, p + 1) == Some('=') {
                lex_from(cs, p + 2, acc.push((operator_tokens(c)->0).1))
            } else {
                lex_from(cs, p + 1, acc.push((operator_tokens(c)->0).0))
            }
        } else {
            (Err(ErrorOf::Syntax(invalid_char_message(c))), p)
        }
    }
}

/// The result of lexing the whole of `cs`.
pub open spec fn lex(cs: Seq<char>) -> Result<Seq<SpecToken>, SpecError> {
    lex_from(cs, 0, Seq::empty()).0
}

// ---------------------------------------------------------------------------
// The lexer.
// ---------------------------------------------------------------------------

/// A lexer over the characters of one source text.
pub struct Lexer {
    chars: Vec<char>,
    pos: usize,
}

impl Lexer {
    #[verifier::type_invariant]
    spec fn inv(self) -> bool {
        self.pos <= self.chars@.len()
    }

    /// The characters being lexed.
    pub closed spec fn input(&self) -> Seq<char> {
        self.chars@
    }

    /// The position of the next character to read.
    pub closed spec fn position(&self) -> int {
        self.pos as int
    }

    /// A lexer at the start of `source`.
    pub fn new(source: &str) -> (lexer: Self)
        ensures
            lexer.input() == source@,
            lexer.position() == 0,
    {
        Self { chars: chars_of(source), pos: 0 }
    }

    /// The character at the current position, if any.
    pub fn peek(&self) -> (c: Option<char>)
        ensures
            c == char_at(self.input(), self.position()),
    {
        if self.pos < self.chars.len() {
            Some(self.chars[self.pos])
        } else {
            None
        }
    }

    /// The character after the current one, if any.
    pub fn peek_next(&self) -> (c: Option<char>)
        ensures
            c == char_at(self.input(), self.position() + 1),
    {
        if self.pos < self.chars.len() && self.pos + 1 < self.chars.len() {
            Some(self.chars[self.pos + 1])
        } else {
            None
        }
    }

    /// Reads the current character and moves past it; at the end of the
    /// input, returns `None` and stays.
    pub fn advance(&mut self) -> (c: Option<char>)
        ensures
            c == char_at(old(self).input(), old(self).position()),
            final(self).input() == old(self).input(),
            final(self).position() == if c is Some {
                old(self).position() + 1
            } else {
                old(self).position()
            },
    {
        proof {
            use_type_invariant(&*self);
        }
        if self.pos < self.chars.len() {
            let ch = self.chars[self.pos];
            self.pos = self.pos + 1;
            Some(ch)
        } else {
            None
        }
    }

    /// Moves past blanks (white space other than line breaks).
    pub fn skip_whitespace(&mut self)
        ensures
            final(self).input() == old(self).input(),
            final(self).position() == blank_end(old(self).input(), old(self).position()),
    {
        proof {
            use_type_invariant(&*self);
        }
        loop
            invariant
                self.input() == old(self).input(),
                blank_end(self.input(), self.position()) == blank_end(
                    old(self).input(),
                    old(self).position(),
                ),
            decreases self.input().len() - self.position(),
        {
            proof {
                use_type_invariant(&*self);
            }
            match self.peek() {
                Some(ch) => {
                    if char_is_whitespace(ch) && ch != '\n' {
                        self.advance();
                    } else {
                        return;
                    }
                }
                None => {
                    return;
                }
            }
        }
    }

    /// Reads an identifier or keyword: letters, digits and underscores.
    pub fn read_identifier(&mut self) -> (word: String)
        ensures
            final(self).input() == old(self).input(),
            final(self).position() == ident_end(old(self).input(), old(self).position()),
            word@ == old(self).input().subrange(
                old(self).position(),
                ident_end(old(self).input(), old(self).position()),
            ),
    {
        proof {
            use_type_invariant(&*self);
            lemma_ident_end_ge(self.input(), self.position());
        }
        let ghost start = self.position();
        let ghost cs = self.input();
        let mut result = String::new();
        loop
            invariant
                self.input() == cs,
                cs == old(self).input(),
                start == old(self).position(),
                0 <= start <= self.position() <= ident_end(cs, start) <= cs.len(),
                ident_end(cs, self.position()) == ident_end(cs, start),
                result@ == cs.subrange(start, self.position()),
            decreases cs.len() - self.position(),
        {
            proof {
                use_type_invariant(&*self);
            }
            match self.peek() {
                Some(ch) => {
                    if char_is_alphanumeric(ch) || ch == '_' {
                        push_char(&mut result, ch);
                        self.advance();
                        proof {
                            lemma_ident_end_ge(cs, self.position());
                            assert(result@ =~= cs.subrange(start, self.position()));
                        }
                    } else {
                        return result;
                    }
                }
                None => {
                    return result;
                }
            }
        }
    }

    /// The value of the digits `chars[start..end]`, or 0 where it does not
    /// fit in `i64`.
    fn digits_value(&self, start: usize, end: usize) -> (v: i64)
        requires
            start <= end <= self.input().len(),
            forall|i: int| start <= i < end ==> is_ascii_digit(#[trigger] self.input()[i]),
        ensures
            v == integer_literal(self.input().subrange(start as int, end as int)),
    {
        let ghost cs = self.input();
        let mut acc: i64 = 0;
        let mut i = start;
        while i < end
            invariant
                start <= i <= end <= cs.len(),
                cs == self.chars@,
                forall|k: int| start <= k < end ==> is_ascii_digit(#[trigger] cs[k]),
                acc == decimal_value(cs.subrange(start as int, i as int)),
            decreases end - i,
        {
            let d = self.chars[i];
            let dv = (d as u32 - '0' as u32) as i64;
            proof {
                assert(cs.subrange(start as int, i + 1).drop_last() =~= cs.subrange(
                    start as int,
                    i as int,
                ));
                assert(cs.subrange(start as int, i + 1).last() == d);
            }
            match acc.checked_mul(10) {
                Some(m) => match m.checked_add(dv) {
                    Some(s) => {
                        acc = s;
                    }
                    None => {
                        proof {
                            lemma_decimal_value_monotone(cs.subrange(start as int, end as int), (i + 1 - start) as int);
                            assert(cs.subrange(start as int, end as int).take((i + 1 - start) as int) =~= cs.subrange(start as int, i + 1));
                        }
                        return 0;
                    }
                },
                None => {
                    proof {
                        lemma_decimal_value_monotone(cs.subrange(start as int, end as int), (i + 1 - start) as int);
                        assert(cs.subrange(start as int, end as int).take((i + 1 - start) as int) =~= cs.subrange(start as int, i + 1));
                    }
                    return 0;
                }
            }
            i = i + 1;
        }
        acc
    }

    /// Reads a number: digits with at most one dot. With a dot it is a
    /// floating-point literal, kept as its text; without, an integer literal
    /// whose value is 0 where it does not fit in `i64`.
    pub fn read_number(&mut self) -> (tok: Token)
        ensures
            final(self).input() == old(self).input(),
            final(self).position() == number_end(old(self).input(), old(self).position(), false).0,
            tok@ == number_token(
                old(self).input().subrange(
                    old(self).position(),
                    number_end(old(self).input(), old(self).position(), false).0,
                ),
                number_end(old(self).input(), old(self).position(), false).1,
            ),
    {
        proof {
            use_type_invariant(&*self);
            lemma_number_end_ge(self.input(), self.position(), false);
        }
        let ghost cs = self.input();
        let start = self.pos;
        let mut result = String::new();
        let mut has_dot = false;
        loop
            invariant
                self.input() == cs,
                self.chars@ == cs,
                cs == old(self).input(),
                start == old(self).position(),
                start <= self.position() <= cs.len(),
                self.position() == self.pos,
                number_end(cs, self.position(), has_dot) == number_end(cs, start as int, false),
                result@ == cs.subrange(start as int, self.position()),
                has_dot <==> cs.subrange(start as int, self.position()).contains('.'),
                forall|k: int| start <= k < self.position() ==> (is_ascii_digit(#[trigger] cs[k]) || cs[k] == '.'),
            ensures
                number_end(cs, self.position(), has_dot) == (self.position(), has_dot),
            decreases cs.len() - self.position(),
        {
            proof {
                use_type_invariant(&*self);
            }
            let ghost p = self.position();
            match self.peek() {
                Some(ch) => {
                    if '0' <= ch && ch <= '9' {
                        push_char(&mut result, ch);
                        self.advance();
                        proof {
                            assert(result@ =~= cs.subrange(start as int, self.position()));
                            assert(cs.subrange(start as int, self.position()) =~= cs.subrange(start as int, p).push(ch));
                            if cs.subrange(start as int, self.position()).contains('.') {
                                let k = choose|k: int| 0 <= k < cs.subrange(start as int, self.position()).len() && cs.subrange(start as int, self.position())[k] == '.';
                                assert(k < p - start);
                                assert(cs.subrange(start as int, p)[k] == '.');
                            }
                        }
                    } else if ch == '.' && !has_dot {
                        has_dot = true;
                        push_char(&mut result, ch);
                        self.advance();
                        proof {
                            assert(result@ =~= cs.subrange(start as int, self.position()));
                            assert(cs.subrange(start as int, self.position())[p - start] == '.');
                        }
                    } else {
                        break;
                    }
                }
                None => {
                    break;
                }
            }
        }
        if has_dot {
            Token::Float(result)
        } else {
            proof {
                assert forall|k: int| start <= k < self.position() implies is_ascii_digit(#[trigger] cs[k]) by {
                    if cs[k] == '.' {
                        assert(cs.subrange(start as int, self.position())[k - start] == '.');
                    }
                }
            }
            Token::Integer(self.digits_value(start, self.pos))
        }
    }

    /// Reads a string literal. The current character (the opening quote) is
    /// skipped; the literal runs to the next unescaped quote or to the end of
    /// the input. `\n` and `\t` stand for a line break and a tab; any other
    /// escaped character stands for itself.
    pub fn read_string(&mut self) -> (tok: Token)
        ensures
            final(self).input() == old(self).input(),
            ({
                let p1 = if old(self).position() < old(self).input().len() {
                    old(self).position() + 1
                } else {
                    old(self).position()
                };
                let (body, e) = string_body(old(self).input(), p1, Seq::empty());
                &&& final(self).position() == e
                &&& tok@ == TokenOf::String(body)
            }),
    {
        proof {
            use_type_invariant(&*self);
        }
        self.advance();
        let ghost cs = self.input();
        let ghost p1 = self.position();
        let mut result = String::new();
        proof {
            lemma_string_body_ge(cs, p1, Seq::empty());
        }
        loop
            invariant_except_break
                string_body(cs, self.position(), result@) == string_body(cs, p1, Seq::empty()),
            invariant
                self.input() == cs,
                cs == old(self).input(),
                p1 == (if old(self).position() < cs.len() { old(self).position() + 1 } else { old(self).position() }),
                0 <= self.position() <= cs.len(),
            ensures
                (result@, self.position()) == string_body(cs, p1, Seq::empty()),
            decreases cs.len() - self.position(),
        {
            proof {
                use_type_invariant(&*self);
            }
            match self.peek() {
                Some(ch) => {
                    if ch == '"' {
                        self.advance();
                        break;
                    }
                    if ch == '\\' {
                        self.advance();
                        match self.peek() {
                            Some(esc) => {
                                if esc == 'n' {
                                    push_char(&mut result, '\n');
                                } else if esc == 't' {
                                    push_char(&mut result, '\t');
                                } else {
                                    push_char(&mut result, esc);
                                }
                                self.advance();
                            }
                            None => {}
                        }
                    } else {
                        push_char(&mut result, ch);
                        self.advance();
                    }
                }
                None => {
                    break;
                }
            }
        }
        Token::String(result)
    }

    /// Moves to the end of the line (the line break is not read).
    pub fn read_comment(&mut self)
        ensures
            final(self).input() == old(self).input(),
            final(self).position() == line_end(old(self).input(), old(self).position()),
    {
        proof {
            use_type_invariant(&*self);
        }
        loop
            invariant
                self.input() == old(self).input(),
                line_end(self.input(), self.position()) == line_end(
                    old(self).input(),
                    old(self).position(),
                ),
            decreases self.input().len() - self.position(),
        {
            proof {
                use_type_invariant(&*self);
            }
            match self.peek() {
                Some(ch) => {
                    if ch == '\n' {
                        return;
                    }
                    self.advance();
                }
                None => {
                    return;
                }
            }
        }
    }

    /// Lexes the rest of the input: the tokens up to the end, followed by
    /// `EOF`, or a syntax error at the first character that starts no token.
    pub fn tokenize(&mut self) -> (res: Result<Vec<Token>, Error>)
        ensures
            final(self).input() == old(self).input(),
            final(self).position() == lex_from(old(self).input(), old(self).position(), Seq::empty()).1,
            match res {
                Ok(ts) => lex_from(old(self).input(), old(self).position(), Seq::empty()).0 == Ok::<Seq<SpecToken>, SpecError>(tokens_view(ts@)),
                Err(e) => lex_from(old(self).input(), old(self).position(), Seq::empty()).0 == Err::<Seq<SpecToken>, SpecError>(e@),
            },
    {
        proof {
            use_type_invariant(&*self);
        }
        let ghost cs = self.input();
        let ghost target = lex_from(cs, self.position(), Seq::empty());
        let mut tokens: Vec<Token> = Vec::new();
        proof {
            assert(tokens_view(tokens@) =~= Seq::<SpecToken>::empty());
        }
        loop
            invariant
                self.input() == cs,
                cs == old(self).input(),
                target == lex_from(old(self).input(), old(self).position(), Seq::empty()),
                0 <= self.position() <= cs.len(),
                lex_from(cs, self.position(), tokens_view(tokens@)) == target,
            ensures
                self.position() == cs.len(),
                lex_from(cs, self.position(), tokens_view(tokens@)) == target,
            decreases cs.len() - self.position(),
        {
            proof {
                use_type_invariant(&*self);
            }
            let ghost p = self.position();
            let ghost before = tokens_view(tokens@);
            let ch = match self.peek() {
                Some(ch) => ch,
                None => {
                    break;
                }
            };
            if char_is_whitespace(ch) && ch != '\n' {
                self.advance();
                continue;
            }
            if ch == '\n' {
                tokens.push(Token::Newline);
                self.advance();
                proof {
                    assert(tokens_view(tokens@) =~= before.push(TokenOf::Newline));
                }
                continue;
            }
            if ch == '/' {
                if self.peek_next() == Some('/') {
                    proof {
                        lemma_line_end_ge(cs, p + 1);
                    }
                    self.read_comment();
                } else {
                    self.advance();
                    tokens.push(Token::Divide);
                    proof {
                        assert(tokens_view(tokens@) =~= before.push(TokenOf::Divide));
                    }
                }
            } else if ch == '"' {
                let t = self.read_string();
                proof {
                    lemma_string_body_ge(cs, p + 1, Seq::empty());
                }
                tokens.push(t);
                proof {
                    assert(tokens_view(tokens@) =~= before.push(t@));
                }
            } else if '0' <= ch && ch <= '9' {
                proof {
                    lemma_number_end_ge(cs, p + 1, false);
                }
                let t = self.read_number();
                tokens.push(t);
                proof {
                    assert(tokens_view(tokens@) =~= before.push(t@));
                }
            } else if ('a' <= ch && ch <= 'z') || ('A' <= ch && ch <= 'Z') || ch == '_' {
                proof {
                    lemma_ident_end_ge(cs, p + 1);
                }
                let id = self.read_identifier();
                let t = word_to_token(id);
                tokens.push(t);
                proof {
                    assert(tokens_view(tokens@) =~= before.push(t@));
                }
            } else if ch == '+' || ch == '-' || ch == '*' || ch == '%' || ch == '(' || ch == ')'
                || ch == '{' || ch == '}' || ch == '[' || ch == ']' || ch == ',' || ch == ';'
                || ch == '.' {
                self.advance();
                let t = if ch == '+' {
                    Token::Plus
                } else if ch == '-' {
                    Token::Minus
                } else if ch == '*' {
                    Token::Multiply
                } else if ch == '%' {
                    Token::Modulo
                } else if ch == '(' {
                    Token::LParen
                } else if ch == ')' {
                    Token::RParen
                } else if ch == '{' {
                    Token::LBrace
                } else if ch == '}' {
                    Token::RBrace
                } else if ch == '[' {
                    Token::LBracket
                } else if ch == ']' {
                    Token::RBracket
                } else if ch == ',' {
                    Token::Comma
                } else if ch == ';' {
                    Token::Semicolon
                } else {
                    Token::Dot
                };
                tokens.push(t);
                proof {
                    assert(tokens_view(tokens@) =~= before.push(t@));
                }
            } else if ch == '=' || ch == '!' || ch == '>' || ch == '<' {
                self.advance();
                let with_eq = self.peek() == Some('=');
                if with_eq {
                    self.advance();
                }
                let t = if ch == '=' {
                    if with_eq { Token::Equal } else { Token::Assign }
                } else if ch == '!' {
                    if with_eq { Token::NotEqual } else { Token::Not }
                } else if ch == '>' {
                    if with_eq { Token::GreaterEqual } else { Token::Greater }
                } else {
                    if with_eq { Token::LessEqual } else { Token::Less }
                };
                tokens.push(t);
                proof {
                    assert(tokens_view(tokens@) =~= before.push(t@));
                }
            } else {
                return Err(Error::Syntax(invalid_char_text(ch)));
            }
        }
        let ghost before = tokens_view(tokens@);
        tokens.push(Token::EOF);
        proof {
            assert(tokens_view(tokens@) =~= before.push(TokenOf::EOF));
        }
        Ok(tokens)
    }
}

/// Whether two string slices hold the same characters.
pub fn str_equal(a: &str, b: &str) -> (r: bool)
    ensures
        r == (a@ == b@),
{
    let n = a.unicode_len();
    if n != b.unicode_len() {
        return false;
    }
    let mut i: usize = 0;
    while i < n
        invariant
            n == a@.len(),
            n == b@.len(),
            i <= n,
            forall|k: int| 0 <= k < i ==> a@[k] == b@[k],
        decreases n - i,
    {
        if a.get_char(i) != b.get_char(i) {
            return false;
        }
        i = i + 1;
    }
    proof {
        assert(a@ =~= b@);
    }
    true
}

/// The token of a word read by the lexer: a keyword, or else an identifier.
pub fn word_to_token(id: String) -> (t: Token)
    ensures
        t@ == word_token(id@),
{
    let w = id.as_str();
    if str_equal(w, "let") { Token::Let }
    else if str_equal(w, "if") { Token::If }
    else if str_equal(w, "else") { Token::Else }
    else if str_equal(w, "while") { Token::While }
    else if str_equal(w, "for") { Token::For }
    else if str_equal(w, "in") { Token::In }
    else if str_equal(w, "fn") { Token::Function }
    else if str_equal(w, "return") { Token::Return }
    else if str_equal(w, "print") { Token::Print }
    else if str_equal(w, "println") { Token::PrintLn }
    else if str_equal(w, "true") { Token::True }
    else if str_equal(w, "false") { Token::False }
    else if str_equal(w, "null") { Token::Null }
    else if str_equal(w, "break") { Token::Break }
    else if str_equal(w, "continue") { Token::Continue }
    else if str_equal(w, "import") { Token::Import }
    else if str_equal(w, "import_py") { Token::ImportPy }
    else if str_equal(w, "import_js") { Token::ImportJs }
    else if str_equal(w, "import_rs") { Token::ImportRs }
    else if str_equal(w, "class") { Token::Class }
    else if str_equal(w, "new") { Token::New }
    else if str_equal(w, "try") { Token::Try }
    else if str_equal(w, "catch") { Token::Catch }
    else if str_equal(w, "throw") { Token::Throw }
    else if str_equal(w, "this") { Token::This }
    else if str_equal(w, "download") { Token::Download }
    else if str_equal(w, "from") { Token::From }
    else if str_equal(w, "and") { Token::And }
    else if str_equal(w, "or") { Token::Or }
    else if str_equal(w, "not") { Token::Not }
    else { Token::Identifier(id) }
}

/// The message for a character that starts no token.
pub fn invalid_char_text(c: char) -> (m: String)
    ensures
        m@ == invalid_char_message(c),
{
    let mut m = "无效字符: '".to_owned();
    push_char(&mut m, c);
    push_char(&mut m, '\'');
    proof {
        assert(m@ =~= invalid_char_message(c));
    }
    m
}

} // verus!
