//! Tokens: a piece of source text together with its class.
use vstd::prelude::*;

verus! {

/// The closed set of token classes.
#[derive(Debug, Clone, Copy, PartialEq, Eq, Structural)]
pub enum TokenKind {
    Preprocessor,
    Number,
    Identifier,
    OpenParen,
    CloseParen,
    OpenBrace,
    CloseBrace,
    Invalid,
    Semicolon,
    Comment,
}

/// One classified lexical unit, owning a copy of its text.
#[derive(Debug, Clone, PartialEq, Eq)]
pub struct Token {
    pub value: String,
    pub kind: TokenKind,
}

impl View for Token {
    type V = (Seq<char>, TokenKind);

    open spec fn view(&self) -> (Seq<char>, TokenKind) {
        (self.value@, self.kind)
    }
}

/// The model of an optional token.
pub open spec fn token_view(t: Option<Token>) -> Option<(Seq<char>, TokenKind)> {
    match t {
        Some(tok) => Some(tok@),
        None => None,
    }
}

/// The class of a one-character punctuation token, if `c` is one.
pub open spec fn punctuation(c: char) -> Option<TokenKind> {
    if c == '(' {
        Some(TokenKind::OpenParen)
    } else if c == ')' {
        Some(TokenKind::CloseParen)
    } else if c == '{' {
        Some(TokenKind::OpenBrace)
    } else if c == '}' {
        Some(TokenKind::CloseBrace)
    } else if c == ';' {
        Some(TokenKind::Semicolon)
    } else {
        None
    }
}

/// Looks `c` up among the punctuation characters.
pub fn punctuation_kind(c: char) -> (r: Option<TokenKind>)
    ensures
        r == punctuation(c),
{
    match c {
        '(' => Some(TokenKind::OpenParen),
        ')' => Some(TokenKind::CloseParen),
        '{' => Some(TokenKind::OpenBrace),
        '}' => Some(TokenKind::CloseBrace),
        ';' => Some(TokenKind::Semicolon),
        _ => None,
    }
}

/// Relies on `String::push`: appends `c` at the end of `s`.
#[verifier::external_body]
fn push_char(s: &mut String, c: char)
    ensures
        final(s)@ == old(s)@.push(c),
{
    s.push(c)
}

/// An owned copy of `content[from..to]`.
pub fn text_of(content: &[char], from: usize, to: usize) -> (r: String)
    requires
        from <= to <= content@.len(),
    ensures
        r@ == content@.subrange(from as int, to as int),
{
    let mut s = String::new();
    let mut i: usize = from;
    while i < to
        invariant
            from <= i <= to,
            to <= content@.len(),
            s@ == content@.subrange(from as int, i as int),
        decreases to - i,
    {
        push_char(&mut s, content[i]);
        i = i + 1;
        assert(s@ =~= content@.subrange(from as int, i as int));
    }
    s
}

} // verus!
