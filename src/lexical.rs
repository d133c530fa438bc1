//! The lexical grammar as mathematics: what one scanning step at a position
//! consumes and produces, and the tokens and diagnostics of a whole source.
use vstd::prelude::*;
use crate::error::DiagnosticView;
use crate::token::{is_digit_char, keyword_spec, LiteralView, TokenType, TokenView};

verus! {

pub open spec fn is_alpha_char(c: char) -> bool {
    ('a' <= c && c <= 'z') || ('A' <= c && c <= 'Z') || c == '_'
}

pub open spec fn is_alpha_digit_char(c: char) -> bool {
    is_digit_char(c) || is_alpha_char(c)
}

/// The character at `p`, or `'\0'` past either end.
pub open spec fn char_at(src: Seq<char>, p: int) -> char {
    if 0 <= p < src.len() {
        src[p]
    } else {
        '\0'
    }
}

/// End of the maximal run of digits that starts at `p`.
pub open spec fn digits_end(src: Seq<char>, p: int) -> int
    decreases src.len() - p,
{
    if 0 <= p < src.len() && is_digit_char(src[p]) {
        digits_end(src, p + 1)
    } else {
        p
    }
}

/// End of the maximal run of letters, digits and underscores that starts at `p`.
pub open spec fn word_end(src: Seq<char>, p: int) -> int
    decreases src.len() - p,
{
    if 0 <= p < src.len() && is_alpha_digit_char(src[p]) {
        word_end(src, p + 1)
    } else {
        p
    }
}

/// The first position at or after `p` that holds `c`, or the length of `src`.
pub open spec fn find_from(src: Seq<char>, p: int, c: char) -> int
    decreases src.len() - p,
{
    if 0 <= p < src.len() && src[p] != c {
        find_from(src, p + 1, c)
    } else {
        p
    }
}

/// End of a numeral that starts with a digit at `p`: a digit run, then `.`
/// and a second digit run only where a digit follows the `.`.
pub open spec fn numeral_end(src: Seq<char>, p: int) -> int {
    let a = digits_end(src, p);
    if char_at(src, a) == '.' && is_digit_char(char_at(src, a + 1)) {
        digits_end(src, a + 1)
    } else {
        a
    }
}

/// The token type of a character that always stands alone.
pub open spec fn single_char_type(c: char) -> Option<TokenType> {
    if c == '(' {
        Some(TokenType::LeftParen)
    } else if c == ')' {
        Some(TokenType::RightParen)
    } else if c == '{' {
        Some(TokenType::LeftBrace)
    } else if c == '}' {
        Some(TokenType::RightBrace)
    } else if c == ',' {
        Some(TokenType::Comma)
    } else if c == '.' {
        Some(TokenType::Dot)
    } else if c == '-' {
        Some(TokenType::Minus)
    } else if c == '+' {
        Some(TokenType::Plus)
    } else if c == ';' {
        Some(TokenType::Semicolon)
    } else if c == '*' {
        Some(TokenType::Star)
    } else {
        None
    }
}

/// The token type of `!`, `=`, `<` or `>`, alone or followed by `=`.
pub open spec fn operator_type(c: char, with_equal: bool) -> TokenType {
    if c == '!' {
        if with_equal { TokenType::BangEqual } else { TokenType::Bang }
    } else if c == '=' {
        if with_equal { TokenType::EqualEqual } else { TokenType::Equal }
    } else if c == '<' {
        if with_equal { TokenType::LessEqual } else { TokenType::Less }
    } else {
        if with_equal { TokenType::GreaterEqual } else { TokenType::Greater }
    }
}

pub open spec fn is_operator_char(c: char) -> bool {
    c == '!' || c == '=' || c == '<' || c == '>'
}

pub open spec fn is_blank_char(c: char) -> bool {
    c == ' ' || c == '\t' || c == '\r' || c == '\n'
}

/// What one scanning step yields.
pub enum Lexeme {
    /// Whitespace or a comment.
    Skip,
    /// A token of this type.
    Token(TokenType),
    /// A string literal that the input ends inside.
    Unterminated,
    /// A character that starts no lexeme.
    Unexpected,
}

/// The step that starts at `p` (with `0 <= p < src.len()`): what it yields,
/// and the position just past the characters it consumes.
pub open spec fn step(src: Seq<char>, p: int) -> (Lexeme, int) {
    let c = src[p];
    let n = char_at(src, p + 1);
    if is_blank_char(c) {
        (Lexeme::Skip, p + 1)
    } else if single_char_type(c) is Some {
        (Lexeme::Token(single_char_type(c)->0), p + 1)
    } else if is_operator_char(c) {
        if n == '=' {
            (Lexeme::Token(operator_type(c, true)), p + 2)
        } else {
            (Lexeme::Token(operator_type(c, false)), p + 1)
        }
    } else if c == '/' {
        if n == '/' {
            (Lexeme::Skip, find_from(src, p + 2, '\n'))
        } else {
            (Lexeme::Token(TokenType::Slash), p + 1)
        }
    } else if c == '"' {
        let q = find_from(src, p + 1, '"');
        if q >= src.len() {
            (Lexeme::Unterminated, src.len() as int)
        } else {
            (Lexeme::Token(TokenType::String), q + 1)
        }
    } else if is_digit_char(c) {
        (Lexeme::Token(TokenType::Number), numeral_end(src, p))
    } else if is_alpha_char(c) {
        let e = word_end(src, p);
        match keyword_spec(src.subrange(p, e)) {
            Some(k) => (Lexeme::Token(k), e),
            None => (Lexeme::Token(TokenType::Identifier), e),
        }
    } else {
        (Lexeme::Unexpected, p + 1)
    }
}

/// 1-based line of position `p`: one more than the newlines before it.
pub open spec fn line_at(src: Seq<char>, p: int) -> nat
    decreases p,
{
    if p <= 0 {
        1
    } else if src[p - 1] == '\n' {
        line_at(src, p - 1) + 1
    } else {
        line_at(src, p - 1)
    }
}

/// Offset of position `p` within its line: the characters since the last newline.
pub open spec fn column_at(src: Seq<char>, p: int) -> nat
    decreases p,
{
    if p <= 0 {
        0
    } else if src[p - 1] == '\n' {
        0
    } else {
        column_at(src, p - 1) + 1
    }
}

/// The payload of a token of type `t` over `src[s..e]`.
pub open spec fn literal_of(src: Seq<char>, s: int, e: int, t: TokenType) -> LiteralView {
    if t == TokenType::String {
        LiteralView::Str(src.subrange(s + 1, e - 1))
    } else if t == TokenType::Number {
        LiteralView::Number(src.subrange(s, e))
    } else {
        LiteralView::Absent
    }
}

/// The token of type `t` over `src[s..e]`, placed where the lexeme ends.
pub open spec fn token_of(src: Seq<char>, s: int, e: int, t: TokenType) -> TokenView {
    TokenView {
        token_type: t,
        lexeme: src.subrange(s, e),
        literal: literal_of(src, s, e, t),
        line: line_at(src, e),
        column: column_at(src, e),
        offset: s as nat,
    }
}

/// The end-of-input token.
pub open spec fn eof_token(src: Seq<char>) -> TokenView {
    TokenView {
        token_type: TokenType::EOF,
        lexeme: Seq::empty(),
        literal: LiteralView::Absent,
        line: line_at(src, src.len() as int),
        column: column_at(src, src.len() as int),
        offset: src.len(),
    }
}

/// The tokens that a step yielding `lx` over `src[s..e]` emits: one or none.
pub open spec fn lexeme_tokens(src: Seq<char>, s: int, e: int, lx: Lexeme) -> Seq<TokenView> {
    match lx {
        Lexeme::Token(t) => seq![token_of(src, s, e, t)],
        _ => Seq::empty(),
    }
}

/// The tokens of the steps from `p` to the end, in order.
pub open spec fn tokens_from(src: Seq<char>, p: int) -> Seq<TokenView>
    decreases src.len() - p,
{
    if 0 <= p < src.len() {
        let (lx, e) = step(src, p);
        if p < e <= src.len() {
            lexeme_tokens(src, p, e, lx) + tokens_from(src, e)
        } else {
            Seq::empty()
        }
    } else {
        Seq::empty()
    }
}

pub open spec fn unterminated_message() -> Seq<char> {
    seq!['U', 'n', 't', 'e', 'r', 'm', 'i', 'n', 'a', 't', 'e', 'd', ' ', 's', 't', 'r', 'i', 'n', 'g', '.']
}

pub open spec fn unexpected_message() -> Seq<char> {
    seq!['U', 'n', 'e', 'x', 'p', 'e', 'c', 't', 'e', 'd', ' ', 'c', 'h', 'a', 'r', 'a', 'c', 't', 'e', 'r', '.']
}

/// The diagnostics that a step yielding `lx` and ending at `e` reports: one or none,
/// placed where the step ends.
pub open spec fn lexeme_diagnostics(src: Seq<char>, e: int, lx: Lexeme) -> Seq<DiagnosticView> {
    match lx {
        Lexeme::Unterminated => seq![
            DiagnosticView {
                line: line_at(src, e),
                column: column_at(src, e),
                message: unterminated_message(),
            },
        ],
        Lexeme::Unexpected => seq![
            DiagnosticView {
                line: line_at(src, e),
                column: column_at(src, e),
                message: unexpected_message(),
            },
        ],
        _ => Seq::empty(),
    }
}

/// The diagnostics of the steps from `p` to the end, in order.
pub open spec fn diagnostics_from(src: Seq<char>, p: int) -> Seq<DiagnosticView>
    decreases src.len() - p,
{
    if 0 <= p < src.len() {
        let (lx, e) = step(src, p);
        if p < e <= src.len() {
            lexeme_diagnostics(src, e, lx) + diagnostics_from(src, e)
        } else {
            Seq::empty()
        }
    } else {
        Seq::empty()
    }
}

/// The whole token sequence of `src`: the tokens of its steps, then end of input.
pub open spec fn scan_spec(src: Seq<char>) -> Seq<TokenView> {
    tokens_from(src, 0).push(eof_token(src))
}

/// Every step consumes at least one character and stays within the source.
pub proof fn lemma_step_advances(src: Seq<char>, p: int)
    requires
        0 <= p < src.len(),
    ensures
        p < step(src, p).1 <= src.len(),
{
    lemma_runs_bounded(src, p);
    lemma_runs_bounded(src, p + 1);
    if p + 2 <= src.len() {
        lemma_runs_bounded(src, p + 2);
    }
    let a = digits_end(src, p);
    if a + 1 <= src.len() {
        lemma_runs_bounded(src, a + 1);
    }
}

/// The runs and searches from `p` end between `p` and the end of the source.
pub proof fn lemma_runs_bounded(src: Seq<char>, p: int)
    requires
        0 <= p <= src.len(),
    ensures
        p <= digits_end(src, p) <= src.len(),
        p <= word_end(src, p) <= src.len(),
        p <= find_from(src, p, '\n') <= src.len(),
        p <= find_from(src, p, '"') <= src.len(),
    decreases src.len() - p,
{
    if p < src.len() {
        lemma_runs_bounded(src, p + 1);
    }
}

/// A position's line is at most one more than the position, its column at most the position.
pub proof fn lemma_position_bounded(src: Seq<char>, p: int)
    requires
        0 <= p <= src.len(),
    ensures
        line_at(src, p) <= p + 1,
        column_at(src, p) <= p,
    decreases p,
{
    if p > 0 {
        lemma_position_bounded(src, p - 1);
    }
}

/// Every character of the run that `digits_end` measures is a digit.
pub proof fn lemma_digit_run(src: Seq<char>, p: int)
    requires
        0 <= p <= src.len(),
    ensures
        forall|i: int| p <= i < digits_end(src, p) ==> is_digit_char(#[trigger] src[i]),
    decreases src.len() - p,
{
    if p < src.len() && is_digit_char(src[p]) {
        lemma_digit_run(src, p + 1);
    }
}

/// The characters that the step yielding `lx` over `src[s..e]` consumes: the
/// lexeme of its token, or the skipped or rejected span.
pub open spec fn consumed_span(src: Seq<char>, s: int, e: int, lx: Lexeme) -> Seq<char> {
    match lx {
        Lexeme::Token(t) => token_of(src, s, e, t).lexeme,
        _ => src.subrange(s, e),
    }
}

/// The characters consumed by the steps from `p` to the end, concatenated in
/// order: token lexemes, skipped whitespace and comments, and the spans of
/// diagnostic-producing steps alike.
pub open spec fn consumed_from(src: Seq<char>, p: int) -> Seq<char>
    decreases src.len() - p,
{
    if 0 <= p < src.len() {
        let (lx, e) = step(src, p);
        if p < e <= src.len() {
            consumed_span(src, p, e, lx) + consumed_from(src, e)
        } else {
            Seq::empty()
        }
    } else {
        Seq::empty()
    }
}

/// Concatenating every span that scanning consumes, in order, gives back the
/// input from `p` on.
pub proof fn lemma_consumed_from(src: Seq<char>, p: int)
    requires
        0 <= p <= src.len(),
    ensures
        consumed_from(src, p) == src.subrange(p, src.len() as int),
    decreases src.len() - p,
{
    if p < src.len() {
        lemma_step_advances(src, p);
        let (lx, e) = step(src, p);
        assert(consumed_span(src, p, e, lx) == src.subrange(p, e));
        lemma_consumed_from(src, e);
        assert(src.subrange(p, e) + src.subrange(e, src.len() as int) =~= src.subrange(
            p,
            src.len() as int,
        ));
    } else {
        assert(src.subrange(p, src.len() as int) =~= Seq::<char>::empty());
    }
}

/// Scanning consumes the whole input, every character exactly once and in order.
pub proof fn lemma_spans_reconstruct_input(src: Seq<char>)
    ensures
        consumed_from(src, 0) == src,
{
    lemma_consumed_from(src, 0);
    assert(src.subrange(0, src.len() as int) =~= src);
}

/// No step emits an end-of-input token.
pub proof fn lemma_no_eof_before_end(src: Seq<char>, p: int)
    ensures
        forall|i: int|
            0 <= i < tokens_from(src, p).len() ==> #[trigger] tokens_from(src, p)[i].token_type
                != TokenType::EOF,
    decreases src.len() - p,
{
    if 0 <= p < src.len() {
        let (lx, e) = step(src, p);
        if p < e <= src.len() {
            lemma_no_eof_before_end(src, e);
            let here = lexeme_tokens(src, p, e, lx);
            let rest = tokens_from(src, e);
            assert forall|i: int| 0 <= i < tokens_from(src, p).len() implies #[trigger] tokens_from(
                src,
                p,
            )[i].token_type != TokenType::EOF by {
                if i >= here.len() {
                    assert(tokens_from(src, p)[i] == rest[i - here.len()]);
                }
            }
        }
    }
}

/// The token sequence of any input ends with exactly one end-of-input token,
/// whose lexeme is empty and whose payload is absent.
pub proof fn lemma_single_final_eof(src: Seq<char>)
    ensures
        scan_spec(src).len() >= 1,
        scan_spec(src).last().token_type == TokenType::EOF,
        scan_spec(src).last().lexeme.len() == 0,
        scan_spec(src).last().literal == LiteralView::Absent,
        forall|i: int|
            0 <= i < scan_spec(src).len() - 1 ==> #[trigger] scan_spec(src)[i].token_type
                != TokenType::EOF,
{
    lemma_no_eof_before_end(src, 0);
    let ts = tokens_from(src, 0);
    assert forall|i: int| 0 <= i < scan_spec(src).len() - 1 implies #[trigger] scan_spec(
        src,
    )[i].token_type != TokenType::EOF by {
        assert(scan_spec(src)[i] == ts[i]);
    }
}

} // verus!
