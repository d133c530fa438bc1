//! Diagnostics: positional records of recoverable lexical errors.
use vstd::prelude::*;
use crate::text::{chars_of, push_char};

verus! {

/// A diagnostic as plain values.
pub struct DiagnosticView {
    pub line: nat,
    pub column: nat,
    pub message: Seq<char>,
}

impl View for Error {
    type V = DiagnosticView;

    open spec fn view(&self) -> DiagnosticView {
        DiagnosticView { line: self.line as nat, column: self.index as nat, message: self.message@ }
    }
}

/// The views of a sequence of diagnostics.
pub open spec fn error_views(es: Seq<Error>) -> Seq<DiagnosticView> {
    es.map_values(|e: Error| e@)
}

/// A diagnostic: where it was found and what went wrong.
#[derive(Debug)]
pub struct Error {
    /// 1-based line.
    pub line: usize,
    /// Offset within the line.
    pub index: usize,
    pub message: String,
}

impl Error {
    pub fn new(line: usize, index: usize, message: &str) -> (r: Error)
        ensures
            r.line == line,
            r.index == index,
            r.message@ == message@,
    {
        Error { line, index, message: message.to_owned() }
    }

    /// The diagnostic as text: `[line:column] message`.
    pub fn render(&self) -> (r: String)
        ensures
            r@ == rendered(self.line as nat, self.index as nat, self.message@),
    {
        let mut s = String::new();
        push_char(&mut s, '[');
        push_decimal(&mut s, self.line);
        push_char(&mut s, ':');
        push_decimal(&mut s, self.index);
        push_char(&mut s, ']');
        push_char(&mut s, ' ');
        let chars = chars_of(self.message.as_str());
        let ghost head = s@;
        let mut i: usize = 0;
        while i < chars.len()
            invariant
                i <= chars@.len(),
                s@ == head + chars@.subrange(0, i as int),
            decreases chars.len() - i,
        {
            push_char(&mut s, chars[i]);
            assert(chars@.subrange(0, i + 1) =~= chars@.subrange(0, i as int).push(chars@[i as int]));
            i += 1;
        }
        assert(chars@.subrange(0, chars@.len() as int) =~= chars@);
        assert(s@ =~= rendered(self.line as nat, self.index as nat, self.message@));
        s
    }
}

/// The character of a decimal digit.
pub open spec fn digit_char(d: nat) -> char {
    if d == 0 {
        '0'
    } else if d == 1 {
        '1'
    } else if d == 2 {
        '2'
    } else if d == 3 {
        '3'
    } else if d == 4 {
        '4'
    } else if d == 5 {
        '5'
    } else if d == 6 {
        '6'
    } else if d == 7 {
        '7'
    } else if d == 8 {
        '8'
    } else {
        '9'
    }
}

/// The decimal digits of `n`, most significant first, without leading zeros.
pub open spec fn decimal(n: nat) -> Seq<char>
    decreases n,
{
    if n < 10 {
        seq![digit_char(n)]
    } else {
        decimal(n / 10).push(digit_char(n % 10))
    }
}

/// `[line:column] message`.
pub open spec fn rendered(line: nat, column: nat, message: Seq<char>) -> Seq<char> {
    seq!['['] + decimal(line) + seq![':'] + decimal(column) + seq![']', ' '] + message
}

fn digit(d: usize) -> (r: char)
    requires
        d < 10,
    ensures
        r == digit_char(d as nat),
{
    if d == 0 {
        '0'
    } else if d == 1 {
        '1'
    } else if d == 2 {
        '2'
    } else if d == 3 {
        '3'
    } else if d == 4 {
        '4'
    } else if d == 5 {
        '5'
    } else if d == 6 {
        '6'
    } else if d == 7 {
        '7'
    } else if d == 8 {
        '8'
    } else {
        '9'
    }
}

/// Appends the decimal digits of `n`.
fn push_decimal(s: &mut String, n: usize)
    ensures
        final(s)@ == old(s)@ + decimal(n as nat),
    decreases n,
{
    if n >= 10 {
        push_decimal(s, n / 10);
    }
    push_char(s, digit(n % 10));
    proof {
        if n >= 10 {
            assert(old(s)@ + decimal(n as nat) =~= (old(s)@ + decimal((n / 10) as nat)).push(digit_char((n % 10) as nat)));
        } else {
            assert(old(s)@ + decimal(n as nat) =~= old(s)@.push(digit_char(n as nat)));
        }
    }
}

} // verus!
