//! The token vocabulary, literal payloads, token records and the keyword table.
use vstd::prelude::*;

verus! {

/// The closed set of lexeme classes.
#[derive(Clone, Copy, Debug, PartialEq, Eq, Structural)]
pub enum TokenType {
    // Single-character tokens.
    LeftParen,  // (
    RightParen,  // )
    LeftBrace,  // {
    RightBrace,  // }
    Comma,  // ,
    Dot,  // .
    Minus,  // -
    Plus,  // +
    Semicolon,  // ;
    Slash,  // /
    Star,  // *
    // One or two character tokens.
    Bang,  // !
    BangEqual,  // !=
    Equal,  // =
    EqualEqual,  // ==
    Greater,  // >
    GreaterEqual,  // >=
    Less,  // <
    LessEqual,  // <=
    // Literals.
    Identifier,
    String,
    Number,
    // Keywords.
    And,
    Or,
    Class,
    Extends,
    Super,
    If,
    Else,
    True,
    False,
    Fun,
    Return,
    Nil,
    Print,
    This,
    Var,
    Const,
    For,
    While,
    Loop,
    // End of input.
    EOF,
}

/// The reserved spellings and the token type each one stands for.
pub open spec fn keyword_spec(s: Seq<char>) -> Option<TokenType> {
    if s == seq!['a', 'n', 'd'] {
        Some(TokenType::And)
    } else if s == seq!['o', 'r'] {
        Some(TokenType::Or)
    } else if s == seq!['c', 'l', 'a', 's', 's'] {
        Some(TokenType::Class)
    } else if s == seq!['e', 'x', 't', 'e', 'n', 'd', 's'] {
        Some(TokenType::Extends)
    } else if s == seq!['s', 'u', 'p', 'e', 'r'] {
        Some(TokenType::Super)
    } else if s == seq!['i', 'f'] {
        Some(TokenType::If)
    } else if s == seq!['e', 'l', 's', 'e'] {
        Some(TokenType::Else)
    } else if s == seq!['t', 'r', 'u', 'e'] {
        Some(TokenType::True)
    } else if s == seq!['f', 'a', 'l', 's', 'e'] {
        Some(TokenType::False)
    } else if s == seq!['f', 'u', 'n'] {
        Some(TokenType::Fun)
    } else if s == seq!['r', 'e', 't', 'u', 'r', 'n'] {
        Some(TokenType::Return)
    } else if s == seq!['n', 'i', 'l'] {
        Some(TokenType::Nil)
    } else if s == seq!['p', 'r', 'i', 'n', 't'] {
        Some(TokenType::Print)
    } else if s == seq!['t', 'h', 'i', 's'] {
        Some(TokenType::This)
    } else if s == seq!['v', 'a', 'r'] {
        Some(TokenType::Var)
    } else if s == seq!['c', 'o', 'n', 's', 't'] {
        Some(TokenType::Const)
    } else if s == seq!['f', 'o', 'r'] {
        Some(TokenType::For)
    } else if s == seq!['w', 'h', 'i', 'l', 'e'] {
        Some(TokenType::While)
    } else if s == seq!['l', 'o', 'o', 'p'] {
        Some(TokenType::Loop)
    } else {
        None
    }
}

/// Whether `text` spells exactly `word`.
fn spells(text: &[char], word: &[char]) -> (r: bool)
    ensures
        r == (text@ == word@),
{
    if text.len() != word.len() {
        return false;
    }
    let mut i: usize = 0;
    while i < text.len()
        invariant
            text@.len() == word@.len(),
            i <= text@.len(),
            forall|j: int| 0 <= j < i ==> text@[j] == word@[j],
        decreases text.len() - i,
    {
        if text[i] != word[i] {
            return false;
        }
        i += 1;
    }
    assert(text@ =~= word@);
    true
}

/// Looks a complete identifier up in the keyword table.
pub fn keyword(text: &[char]) -> (r: Option<TokenType>)
    ensures
        r == keyword_spec(text@),
{
    let w = ['a', 'n', 'd'];
    assert(w@ =~= seq!['a', 'n', 'd']);
    if spells(text, &w) {
        return Some(TokenType::And);
    }
    let w = ['o', 'r'];
    assert(w@ =~= seq!['o', 'r']);
    if spells(text, &w) {
        return Some(TokenType::Or);
    }
    let w = ['c', 'l', 'a', 's', 's'];
    assert(w@ =~= seq!['c', 'l', 'a', 's', 's']);
    if spells(text, &w) {
        return Some(TokenType::Class);
    }
    let w = ['e', 'x', 't', 'e', 'n', 'd', 's'];
    assert(w@ =~= seq!['e', 'x', 't', 'e', 'n', 'd', 's']);
    if spells(text, &w) {
        return Some(TokenType::Extends);
    }
    let w = ['s', 'u', 'p', 'e', 'r'];
    assert(w@ =~= seq!['s', 'u', 'p', 'e', 'r']);
    if spells(text, &w) {
        return Some(TokenType::Super);
    }
    let w = ['i', 'f'];
    assert(w@ =~= seq!['i', 'f']);
    if spells(text, &w) {
        return Some(TokenType::If);
    }
    let w = ['e', 'l', 's', 'e'];
    assert(w@ =~= seq!['e', 'l', 's', 'e']);
    if spells(text, &w) {
        return Some(TokenType::Else);
    }
    let w = ['t', 'r', 'u', 'e'];
    assert(w@ =~= seq!['t', 'r', 'u', 'e']);
    if spells(text, &w) {
        return Some(TokenType::True);
    }
    let w = ['f', 'a', 'l', 's', 'e'];
    assert(w@ =~= seq!['f', 'a', 'l', 's', 'e']);
    if spells(text, &w) {
        return Some(TokenType::False);
    }
    let w = ['f', 'u', 'n'];
    assert(w@ =~= seq!['f', 'u', 'n']);
    if spells(text, &w) {
        return Some(TokenType::Fun);
    }
    let w = ['r', 'e', 't', 'u', 'r', 'n'];
    assert(w@ =~= seq!['r', 'e', 't', 'u', 'r', 'n']);
    if spells(text, &w) {
        return Some(TokenType::Return);
    }
    let w = ['n', 'i', 'l'];
    assert(w@ =~= seq!['n', 'i', 'l']);
    if spells(text, &w) {
        return Some(TokenType::Nil);
    }
    let w = ['p', 'r', 'i', 'n', 't'];
    assert(w@ =~= seq!['p', 'r', 'i', 'n', 't']);
    if spells(text, &w) {
        return Some(TokenType::Print);
    }
    let w = ['t', 'h', 'i', 's'];
    assert(w@ =~= seq!['t', 'h', 'i', 's']);
    if spells(text, &w) {
        return Some(TokenType::This);
    }
    let w = ['v', 'a', 'r'];
    assert(w@ =~= seq!['v', 'a', 'r']);
    if spells(text, &w) {
        return Some(TokenType::Var);
    }
    let w = ['c', 'o', 'n', 's', 't'];
    assert(w@ =~= seq!['c', 'o', 'n', 's', 't']);
    if spells(text, &w) {
        return Some(TokenType::Const);
    }
    let w = ['f', 'o', 'r'];
    assert(w@ =~= seq!['f', 'o', 'r']);
    if spells(text, &w) {
        return Some(TokenType::For);
    }
    let w = ['w', 'h', 'i', 'l', 'e'];
    assert(w@ =~= seq!['w', 'h', 'i', 'l', 'e']);
    if spells(text, &w) {
        return Some(TokenType::While);
    }
    let w = ['l', 'o', 'o', 'p'];
    assert(w@ =~= seq!['l', 'o', 'o', 'p']);
    if spells(text, &w) {
        return Some(TokenType::Loop);
    }
    None
}

/// What a literal payload holds, as plain values.
pub enum LiteralView {
    Absent,
    Str(Seq<char>),
    Number(Seq<char>),
}

/// The text between the quotes of a string literal, taken as it stands.
#[derive(Debug)]
pub struct StringLiteral {
    pub content: String,
}

/// A decimal numeral: a run of digits, optionally followed by `.` and a
/// second run of digits. Its value is the number that the numeral denotes.
#[derive(Debug)]
pub struct NumberLiteral {
    pub numeral: String,
}

/// The payload of a token: absent for all but string and number tokens.
#[derive(Debug)]
pub enum Literal {
    Absent,
    Str(StringLiteral),
    Number(NumberLiteral),
}

impl View for Literal {
    type V = LiteralView;

    open spec fn view(&self) -> LiteralView {
        match self {
            Literal::Absent => LiteralView::Absent,
            Literal::Str(s) => LiteralView::Str(s.content@),
            Literal::Number(n) => LiteralView::Number(n.numeral@),
        }
    }
}

/// The payload of the end-of-input token.
#[derive(Debug)]
pub struct EOFLiteral {}

impl EOFLiteral {
    pub fn new() -> (r: Literal)
        ensures
            r@ == LiteralView::Absent,
    {
        Literal::Absent
    }
}

/// The payload of punctuation, operator, identifier and keyword tokens.
#[derive(Debug)]
pub struct NullLiteral {}

impl NullLiteral {
    pub fn new() -> (r: Literal)
        ensures
            r@ == LiteralView::Absent,
    {
        Literal::Absent
    }
}

impl StringLiteral {
    pub fn new(content: &str) -> (r: Literal)
        ensures
            r@ == LiteralView::Str(content@),
    {
        Literal::Str(StringLiteral { content: content.to_owned() })
    }
}

pub open spec fn is_digit_char(c: char) -> bool {
    '0' <= c && c <= '9'
}

/// `s[..k]` is a non-empty run of digits, and the rest is empty or `.`
/// followed by a non-empty run of digits.
pub open spec fn numeral_split(s: Seq<char>, k: int) -> bool {
    &&& 0 < k <= s.len()
    &&& forall|i: int| 0 <= i < k ==> is_digit_char(#[trigger] s[i])
    &&& (k == s.len() || (k + 1 < s.len() && s[k] == '.' && forall|i: int|
        k < i < s.len() ==> is_digit_char(#[trigger] s[i])))
}

/// A run of digits, optionally followed by `.` and a second, non-empty run.
pub open spec fn is_numeral(s: Seq<char>) -> bool {
    exists|k: int| numeral_split(s, k)
}

impl NumberLiteral {
    /// A number payload for a numeral; the grammar admits no other text here.
    pub fn new(number: &str) -> (r: Literal)
        requires
            is_numeral(number@),
        ensures
            r@ == LiteralView::Number(number@),
    {
        Literal::Number(NumberLiteral { numeral: number.to_owned() })
    }
}

/// What a token holds, as plain values.
pub struct TokenView {
    pub token_type: TokenType,
    pub lexeme: Seq<char>,
    pub literal: LiteralView,
    pub line: nat,
    pub column: nat,
    pub offset: nat,
}

/// A classified lexical unit and where it was found.
#[derive(Debug)]
pub struct Token {
    pub token_type: TokenType,
    pub lexeme: String,
    pub literal: Literal,
    /// 1-based line at the end of the lexeme.
    pub line: usize,
    /// Offset of the lexeme's first character in the source.
    pub index: usize,
    /// Offset within the line at the end of the lexeme.
    pub line_index: usize,
}

impl View for Token {
    type V = TokenView;

    open spec fn view(&self) -> TokenView {
        TokenView {
            token_type: self.token_type,
            lexeme: self.lexeme@,
            literal: self.literal@,
            line: self.line as nat,
            column: self.line_index as nat,
            offset: self.index as nat,
        }
    }
}

impl Token {
    pub fn new(
        token_type: TokenType,
        lexeme: &str,
        literal: Literal,
        line: usize,
        index: usize,
        line_index: usize,
    ) -> (r: Token)
        ensures
            r@ == (TokenView {
                token_type,
                lexeme: lexeme@,
                literal: literal@,
                line: line as nat,
                column: line_index as nat,
                offset: index as nat,
            }),
    {
        Token { token_type, lexeme: lexeme.to_owned(), literal, line, index, line_index }
    }
}

/// The views of a sequence of tokens.
pub open spec fn token_views(ts: Seq<Token>) -> Seq<TokenView> {
    ts.map_values(|t: Token| t@)
}

} // verus!
