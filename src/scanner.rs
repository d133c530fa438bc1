//! The scanner: one left-to-right pass over a source buffer.
use vstd::prelude::*;
use crate::error::{error_views, DiagnosticView, Error};
use crate::lexical::{
    char_at, column_at, diagnostics_from, lemma_digit_run, lemma_position_bounded, lemma_runs_bounded,
    lemma_step_advances, lexeme_diagnostics, lexeme_tokens, line_at, literal_of, scan_spec, step,
    token_of, tokens_from, unexpected_message, unterminated_message, is_alpha_char,
    is_alpha_digit_char, find_from, digits_end, word_end, eof_token,
};
use crate::text::{chars_of, string_of};
use crate::token::{
    is_digit_char, keyword, token_views, EOFLiteral, Literal, NullLiteral,
    NumberLiteral, StringLiteral, Token, TokenType, TokenView,
};

verus! {

pub fn is_digit(ch: char) -> (r: bool)
    ensures
        r == is_digit_char(ch),
{
    ch >= '0' && ch <= '9'
}

pub fn is_alpha(ch: char) -> (r: bool)
    ensures
        r == is_alpha_char(ch),
{
    (ch >= 'a' && ch <= 'z') || (ch >= 'A' && ch <= 'Z') || ch == '_'
}

pub fn is_alpha_digit(ch: char) -> (r: bool)
    ensures
        r == is_alpha_digit_char(ch),
{
    is_digit(ch) || is_alpha(ch)
}

/// Scans one source buffer, once, into tokens and diagnostics.
pub struct Scanner {
    source: Vec<char>,
    tokens: Vec<Token>,
    errors: Vec<Error>,
    /// Offset of the current lexeme's first character.
    start: usize,
    /// Offset of the next unread character.
    curr: usize,
    /// 1-based line of `curr`.
    line: usize,
    /// Offset of `curr` within its line.
    line_index: usize,
}

impl Scanner {
    /// The source being scanned.
    pub closed spec fn source_view(&self) -> Seq<char> {
        self.source@
    }

    /// The tokens emitted so far.
    pub closed spec fn token_views(&self) -> Seq<TokenView> {
        token_views(self.tokens@)
    }

    /// The diagnostics reported so far.
    pub closed spec fn error_views(&self) -> Seq<DiagnosticView> {
        error_views(self.errors@)
    }

    /// The cursor lies within the source, and the line and column are those of `curr`.
    pub closed spec fn wf(&self) -> bool {
        &&& self.source@.len() < usize::MAX
        &&& self.start <= self.curr <= self.source@.len()
        &&& self.line == line_at(self.source@, self.curr as int)
        &&& self.line_index == column_at(self.source@, self.curr as int)
    }

    /// Nothing has been scanned yet.
    pub closed spec fn is_fresh(&self) -> bool {
        &&& self.wf()
        &&& self.curr == 0
        &&& self.tokens@.len() == 0
        &&& self.errors@.len() == 0
    }

    /// `post` is `pre` after the one step that starts at `pre.start`.
    closed spec fn steps_once(pre: Scanner, post: Scanner) -> bool {
        let src = pre.source@;
        let (lx, e) = step(src, pre.start as int);
        &&& post.source@ == src
        &&& post.wf()
        &&& post.start == pre.start
        &&& post.curr == e
        &&& post.token_views() == pre.token_views() + lexeme_tokens(src, pre.start as int, e, lx)
        &&& post.error_views() == pre.error_views() + lexeme_diagnostics(src, e, lx)
    }

    /// Only the cursor moved from `pre` to `post`.
    closed spec fn moved_only(pre: Scanner, post: Scanner) -> bool {
        &&& post.source@ == pre.source@
        &&& post.wf()
        &&& post.start == pre.start
        &&& post.tokens@ == pre.tokens@
        &&& post.errors@ == pre.errors@
    }

    pub fn new(source: &str) -> (r: Scanner)
        requires
            source@.len() < usize::MAX,
        ensures
            r.source_view() == source@,
            r.is_fresh(),
    {
        Scanner {
            source: chars_of(source),
            tokens: Vec::new(),
            errors: Vec::new(),
            start: 0,
            curr: 0,
            line: 1,
            line_index: 0,
        }
    }

    fn is_at_end(&self) -> (r: bool)
        requires
            self.wf(),
        ensures
            r == (self.curr == self.source@.len()),
    {
        self.curr >= self.source.len()
    }

    fn advance(&mut self) -> (r: char)
        requires
            old(self).wf(),
            old(self).curr < old(self).source@.len(),
        ensures
            Self::moved_only(*old(self), *final(self)),
            final(self).curr == old(self).curr + 1,
            r == old(self).source@[old(self).curr as int],
    {
        let ch = self.source[self.curr];
        proof {
            lemma_position_bounded(self.source@, self.curr as int);
        }
        self.curr += 1;
        if ch == '\n' {
            self.line += 1;
            self.line_index = 0;
        } else {
            self.line_index += 1;
        }
        ch
    }

    /// The next unread character, or `'\0'` at the end.
    fn peek(&self) -> (r: char)
        requires
            self.wf(),
        ensures
            r == char_at(self.source@, self.curr as int),
    {
        if self.is_at_end() {
            '\0'
        } else {
            self.source[self.curr]
        }
    }

    /// The character after the next unread one, or `'\0'` past the end.
    fn peek_next(&self) -> (r: char)
        requires
            self.wf(),
        ensures
            r == char_at(self.source@, self.curr + 1),
    {
        if self.curr + 1 >= self.source.len() {
            '\0'
        } else {
            self.source[self.curr + 1]
        }
    }

    /// Consumes the next character if it is `expected`.
    fn match_next(&mut self, expected: char) -> (r: bool)
        requires
            old(self).wf(),
        ensures
            Self::moved_only(*old(self), *final(self)),
            r == (old(self).curr < old(self).source@.len() && old(self).source@[old(self).curr as int]
                == expected),
            final(self).curr == old(self).curr + if r { 1int } else { 0int },
    {
        if self.is_at_end() {
            return false;
        }
        if self.source[self.curr] != expected {
            return false;
        }
        self.advance();
        true
    }

    /// Emits a token of `token_type` over the current lexeme.
    fn add_token(&mut self, token_type: TokenType, literal: Literal)
        requires
            old(self).wf(),
            literal@ == literal_of(
                old(self).source@,
                old(self).start as int,
                old(self).curr as int,
                token_type,
            ),
        ensures
            final(self).source@ == old(self).source@,
            final(self).wf(),
            final(self).start == old(self).start,
            final(self).curr == old(self).curr,
            final(self).errors@ == old(self).errors@,
            final(self).token_views() == old(self).token_views().push(
                token_of(old(self).source@, old(self).start as int, old(self).curr as int, token_type),
            ),
    {
        let text = string_of(&self.source, self.start, self.curr);
        let token = Token::new(token_type, text.as_str(), literal, self.line, self.start, self.line_index);
        let ghost before = self.tokens@;
        self.tokens.push(token);
        assert(token_views(self.tokens@) =~= token_views(before).push(token@));
    }

    fn add_null_literal_token(&mut self, token_type: TokenType)
        requires
            old(self).wf(),
            token_type != TokenType::String,
            token_type != TokenType::Number,
        ensures
            final(self).source@ == old(self).source@,
            final(self).wf(),
            final(self).start == old(self).start,
            final(self).curr == old(self).curr,
            final(self).errors@ == old(self).errors@,
            final(self).token_views() == old(self).token_views().push(
                token_of(old(self).source@, old(self).start as int, old(self).curr as int, token_type),
            ),
    {
        self.add_token(token_type, NullLiteral::new())
    }

    /// Reports a diagnostic at the cursor.
    fn add_error(&mut self, message: &str)
        requires
            old(self).wf(),
        ensures
            final(self).source@ == old(self).source@,
            final(self).wf(),
            final(self).start == old(self).start,
            final(self).curr == old(self).curr,
            final(self).tokens@ == old(self).tokens@,
            final(self).error_views() == old(self).error_views().push(
                DiagnosticView {
                    line: line_at(old(self).source@, old(self).curr as int),
                    column: column_at(old(self).source@, old(self).curr as int),
                    message: message@,
                },
            ),
    {
        let e = Error::new(self.line, self.line_index, message);
        let ghost before = self.errors@;
        self.errors.push(e);
        assert(error_views(self.errors@) =~= error_views(before).push(e@));
    }

    /// Scans a string literal whose opening quote was just consumed.
    fn match_string(&mut self)
        requires
            old(self).wf(),
            old(self).curr == old(self).start + 1,
            old(self).source@[old(self).start as int] == '"',
        ensures
            Self::steps_once(*old(self), *final(self)),
    {
        let ghost pre = *self;
        let ghost src = self.source@;
        proof {
            lemma_runs_bounded(src, pre.curr as int);
        }
        while self.peek() != '"' && !self.is_at_end()
            invariant
                Self::moved_only(pre, *self),
                src == pre.source@,
                pre.curr <= self.curr,
                find_from(src, self.curr as int, '"') == find_from(src, pre.curr as int, '"'),
            decreases src.len() - self.curr,
        {
            self.advance();
        }
        if self.is_at_end() {
            proof {
                reveal_strlit("Unterminated string.");
            }
            self.add_error("Unterminated string.");
            assert("Unterminated string."@ =~= unterminated_message());
            let ghost (lx, e) = step(src, pre.start as int);
            assert(self.token_views() =~= pre.token_views() + lexeme_tokens(src, pre.start as int, e, lx));
            assert(self.error_views() =~= pre.error_views() + lexeme_diagnostics(src, e, lx));
            return ;
        }
        self.advance();
        let value = string_of(&self.source, self.start + 1, self.curr - 1);
        self.add_token(TokenType::String, StringLiteral::new(value.as_str()));
        let ghost (lx, e) = step(src, pre.start as int);
        assert(self.token_views() =~= pre.token_views() + lexeme_tokens(src, pre.start as int, e, lx));
        assert(self.error_views() =~= pre.error_views() + lexeme_diagnostics(src, e, lx));
    }

    /// Scans a numeral whose first digit was just consumed.
    fn match_number(&mut self)
        requires
            old(self).wf(),
            old(self).curr == old(self).start + 1,
            is_digit_char(old(self).source@[old(self).start as int]),
        ensures
            Self::steps_once(*old(self), *final(self)),
    {
        let ghost pre = *self;
        let ghost src = self.source@;
        proof {
            lemma_runs_bounded(src, pre.curr as int);
            lemma_digit_run(src, pre.start as int);
        }
        while is_digit(self.peek())
            invariant
                Self::moved_only(pre, *self),
                src == pre.source@,
                pre.curr <= self.curr,
                digits_end(src, self.curr as int) == digits_end(src, pre.start as int),
            decreases src.len() - self.curr,
        {
            self.advance();
        }
        let ghost a = self.curr as int;
        if self.peek() == '.' && is_digit(self.peek_next()) {
            self.advance();
            proof {
                lemma_runs_bounded(src, a + 1);
                lemma_digit_run(src, a + 1);
            }
            while is_digit(self.peek())
                invariant
                    Self::moved_only(pre, *self),
                    src == pre.source@,
                src == pre.source@,
                    a + 1 <= self.curr,
                    digits_end(src, self.curr as int) == digits_end(src, a + 1),
                decreases src.len() - self.curr,
            {
                self.advance();
            }
        }
        let value = string_of(&self.source, self.start, self.curr);
        proof {
            let v = value@;
            let k = a - pre.start;
            assert forall|i: int| 0 <= i < k implies is_digit_char(#[trigger] v[i]) by {
                assert(v[i] == src[pre.start + i]);
            }
            assert(k == v.len() || (k + 1 < v.len() && v[k] == '.' && forall|i: int|
                k < i < v.len() ==> is_digit_char(#[trigger] v[i]))) by {
                if k < v.len() {
                    assert forall|i: int| k < i < v.len() implies is_digit_char(#[trigger] v[i]) by {
                        assert(v[i] == src[pre.start + i]);
                    }
                }
            }
            assert(crate::token::numeral_split(v, k));
        }
        self.add_token(TokenType::Number, NumberLiteral::new(value.as_str()));
        let ghost (lx, e) = step(src, pre.start as int);
        assert(self.token_views() =~= pre.token_views() + lexeme_tokens(src, pre.start as int, e, lx));
        assert(self.error_views() =~= pre.error_views() + lexeme_diagnostics(src, e, lx));
    }

    /// Scans an identifier or keyword whose first character was just consumed.
    fn match_identifier(&mut self)
        requires
            old(self).wf(),
            old(self).curr == old(self).start + 1,
            is_alpha_char(old(self).source@[old(self).start as int]),
        ensures
            Self::steps_once(*old(self), *final(self)),
    {
        let ghost pre = *self;
        let ghost src = self.source@;
        proof {
            lemma_runs_bounded(src, pre.curr as int);
        }
        while is_alpha_digit(self.peek())
            invariant
                Self::moved_only(pre, *self),
                src == pre.source@,
                pre.curr <= self.curr,
                word_end(src, self.curr as int) == word_end(src, pre.start as int),
            decreases src.len() - self.curr,
        {
            self.advance();
        }
        let text = string_of(&self.source, self.start, self.curr);
        let chars = chars_of(text.as_str());
        match keyword(chars.as_slice()) {
            Some(k) => self.add_null_literal_token(k),
            None => self.add_null_literal_token(TokenType::Identifier),
        }
        let ghost (lx, e) = step(src, pre.start as int);
        assert(self.token_views() =~= pre.token_views() + lexeme_tokens(src, pre.start as int, e, lx));
        assert(self.error_views() =~= pre.error_views() + lexeme_diagnostics(src, e, lx));
    }

    /// Scans the one lexeme that starts at the cursor.
    fn scan(&mut self)
        requires
            old(self).wf(),
            old(self).curr == old(self).start,
            old(self).curr < old(self).source@.len(),
        ensures
            Self::steps_once(*old(self), *final(self)),
    {
        let ghost pre = *self;
        let ghost src = self.source@;
        let ch = self.advance();
        match ch {
            '(' => self.add_null_literal_token(TokenType::LeftParen),
            ')' => self.add_null_literal_token(TokenType::RightParen),
            '{' => self.add_null_literal_token(TokenType::LeftBrace),
            '}' => self.add_null_literal_token(TokenType::RightBrace),
            ',' => self.add_null_literal_token(TokenType::Comma),
            '.' => self.add_null_literal_token(TokenType::Dot),
            '-' => self.add_null_literal_token(TokenType::Minus),
            '+' => self.add_null_literal_token(TokenType::Plus),
            ';' => self.add_null_literal_token(TokenType::Semicolon),
            '*' => self.add_null_literal_token(TokenType::Star),
            '!' => if self.match_next('=') {
                self.add_null_literal_token(TokenType::BangEqual)
            } else {
                self.add_null_literal_token(TokenType::Bang)
            },
            '=' => if self.match_next('=') {
                self.add_null_literal_token(TokenType::EqualEqual)
            } else {
                self.add_null_literal_token(TokenType::Equal)
            },
            '<' => if self.match_next('=') {
                self.add_null_literal_token(TokenType::LessEqual)
            } else {
                self.add_null_literal_token(TokenType::Less)
            },
            '>' => if self.match_next('=') {
                self.add_null_literal_token(TokenType::GreaterEqual)
            } else {
                self.add_null_literal_token(TokenType::Greater)
            },
            '/' => if self.match_next('/') {
                proof {
                    lemma_runs_bounded(src, self.curr as int);
                }
                while self.peek() != '\n' && !self.is_at_end()
                    invariant
                        Self::moved_only(pre, *self),
                        src == pre.source@,
                    src == pre.source@,
                src == pre.source@,
                        pre.start + 2 <= self.curr,
                        find_from(src, self.curr as int, '\n') == find_from(src, pre.start + 2, '\n'),
                    decreases src.len() - self.curr,
                {
                    self.advance();
                }
            } else {
                self.add_null_literal_token(TokenType::Slash)
            },
            ' ' | '\t' | '\r' | '\n' => {},
            '"' => self.match_string(),
            _ => {
                if is_digit(ch) {
                    self.match_number();
                } else if is_alpha(ch) {
                    self.match_identifier();
                } else {
                    proof {
                        reveal_strlit("Unexpected character.");
                    }
                    self.add_error("Unexpected character.");
                    assert("Unexpected character."@ =~= unexpected_message());
                }
            },
        }
        let ghost (lx, e) = step(src, pre.start as int);
        assert(self.token_views() =~= pre.token_views() + lexeme_tokens(src, pre.start as int, e, lx));
        assert(self.error_views() =~= pre.error_views() + lexeme_diagnostics(src, e, lx));
    }

    /// Scans the whole source and returns its tokens, the last one marking
    /// the end of input.
    pub fn scan_tokens(&mut self) -> (r: &Vec<Token>)
        requires
            old(self).is_fresh(),
        ensures
            final(self).source_view() == old(self).source_view(),
            token_views(r@) == scan_spec(old(self).source_view()),
            final(self).token_views() == token_views(r@),
            final(self).error_views() == diagnostics_from(old(self).source_view(), 0),
    {
        let ghost src = self.source@;
        assert(self.token_views() + tokens_from(src, 0) =~= tokens_from(src, 0));
        assert(self.error_views() + diagnostics_from(src, 0) =~= diagnostics_from(src, 0));
        while !self.is_at_end()
            invariant
                self.wf(),
                self.source@ == src,
                self.token_views() + tokens_from(src, self.curr as int) == tokens_from(src, 0),
                self.error_views() + diagnostics_from(src, self.curr as int) == diagnostics_from(src, 0),
            decreases src.len() - self.curr,
        {
            self.start = self.curr;
            let ghost tv = self.token_views();
            let ghost ev = self.error_views();
            let ghost p = self.curr as int;
            self.scan();
            proof {
                lemma_step_advances(src, p);
                let (lx, e) = step(src, p);
                assert(tv + tokens_from(src, p) == tv + (lexeme_tokens(src, p, e, lx) + tokens_from(src, e)));
                assert((tv + lexeme_tokens(src, p, e, lx)) + tokens_from(src, e) =~= tv + (lexeme_tokens(src, p, e, lx) + tokens_from(src, e)));
                assert(ev + diagnostics_from(src, p) == ev + (lexeme_diagnostics(src, e, lx) + diagnostics_from(src, e)));
                assert((ev + lexeme_diagnostics(src, e, lx)) + diagnostics_from(src, e) =~= ev + (lexeme_diagnostics(src, e, lx) + diagnostics_from(src, e)));
            }
        }
        assert(self.token_views() =~= tokens_from(src, 0));
        assert(self.error_views() =~= diagnostics_from(src, 0));
        proof {
            reveal_strlit("");
        }
        let eof = Token::new(TokenType::EOF, "", EOFLiteral::new(), self.line, self.curr, self.line_index);
        let ghost before = self.tokens@;
        self.tokens.push(eof);
        assert(token_views(self.tokens@) =~= token_views(before).push(eof@));
        assert(eof@.lexeme =~= Seq::<char>::empty());
        assert(eof@ == eof_token(src));
        &self.tokens
    }

    /// The diagnostics reported so far, in the order they were found.
    pub fn errors(&self) -> (r: &Vec<Error>)
        ensures
            error_views(r@) == self.error_views(),
    {
        &self.errors
    }

    /// Ends the scanner's life, handing over its tokens and diagnostics.
    pub fn into_parts(self) -> (r: (Vec<Token>, Vec<Error>))
        ensures
            token_views(r.0@) == self.token_views(),
            error_views(r.1@) == self.error_views(),
    {
        (self.tokens, self.errors)
    }
}

/// Scans a whole source buffer: its tokens, the last one marking the end of
/// input, and its diagnostics, both in the order they were found.
pub fn scan_all(source: &str) -> (r: (Vec<Token>, Vec<Error>))
    requires
        source@.len() < usize::MAX,
    ensures
        token_views(r.0@) == scan_spec(source@),
        error_views(r.1@) == diagnostics_from(source@, 0),
{
    let mut scanner = Scanner::new(source);
    scanner.scan_tokens();
    scanner.into_parts()
}

} // verus!
