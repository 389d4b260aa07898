//! The scanner: a cursor over a borrowed character buffer that yields one
//! token per call.
use vstd::prelude::*;
use crate::chars::{
    alphanumeric, decimal_digit, is_alphabetic, is_alphanumeric, is_decimal_digit,
    is_whitespace, whitespace,
};
use crate::model::{
    lemma_newline_count_bound, lemma_newline_count_step, lemma_run_end,
    lemma_run_end_at, line_start, newline_count, not_newline, run_end, scan, skip_space, tokens, tokens_from,
};
use crate::token::{punctuation_kind, text_of, token_view, Token, TokenKind};

verus! {

/// What a scanner holds: its buffer, its cursor, and the line bookkeeping.
pub struct LexerState {
    pub content: Seq<char>,
    pub cursor: nat,
    pub row: nat,
    pub line_start: nat,
}

/// A state is consistent when the cursor lies in the buffer, the row is the
/// number of line feeds consumed, and the line start follows the last of them.
pub open spec fn state_wf(st: LexerState) -> bool {
    &&& st.cursor <= st.content.len()
    &&& st.row == newline_count(st.content.subrange(0, st.cursor as int))
    &&& st.line_start == line_start(st.content.subrange(0, st.cursor as int))
}

/// A pull-based tokenizer over a borrowed buffer of characters.
pub struct Lexer<'a> {
    cursor: usize,
    start: usize,
    row: usize,
    content: &'a [char],
}

impl<'a> View for Lexer<'a> {
    type V = LexerState;

    closed spec fn view(&self) -> LexerState {
        LexerState {
            content: self.content@,
            cursor: self.cursor as nat,
            row: self.row as nat,
            line_start: self.start as nat,
        }
    }
}

impl<'a> Lexer<'a> {
    /// Whether the scanner's state is consistent.
    pub open spec fn wf(&self) -> bool {
        state_wf(self@)
    }

    /// A scanner at the start of `content`.
    pub fn new(content: &'a [char]) -> (r: Self)
        ensures
            r.wf(),
            r@.content == content@,
            r@.cursor == 0,
            r@.row == 0,
            r@.line_start == 0,
    {
        let r = Lexer { row: 0, cursor: 0, start: 0, content };
        assert(r@.content.subrange(0, 0) =~= Seq::<char>::empty());
        r
    }

    /// Whether characters remain past the cursor.
    pub fn is_not_empty(&self) -> (r: bool)
        ensures
            r == (self@.cursor < self@.content.len()),
    {
        self.cursor < self.content.len()
    }

    /// The cursor: how many characters have been consumed.
    pub fn cursor(&self) -> (r: usize)
        ensures
            r == self@.cursor,
    {
        self.cursor
    }

    /// The number of line feeds consumed so far.
    pub fn row(&self) -> (r: usize)
        ensures
            r == self@.row,
    {
        self.row
    }

    /// The index at which the current line starts.
    pub fn line_start(&self) -> (r: usize)
        ensures
            r == self@.line_start,
    {
        self.start
    }

    /// Consumes one character, if any remains, keeping the line bookkeeping.
    pub fn chop_char(&mut self)
        requires
            old(self).wf(),
        ensures
            final(self).wf(),
            final(self)@.content == old(self)@.content,
            final(self)@.cursor == if old(self)@.cursor < old(self)@.content.len() {
                old(self)@.cursor + 1
            } else {
                old(self)@.cursor
            },
    {
        if self.is_not_empty() {
            let character = self.content[self.cursor];
            proof {
                lemma_newline_count_step(self.content@, self.cursor as int);
                lemma_newline_count_bound(self.content@.subrange(0, self.cursor as int));
            }
            self.cursor = self.cursor + 1;
            if character == '\n' {
                self.row = self.row + 1;
                self.start = self.cursor;
            }
        }
    }

    /// Consumes the whitespace at the cursor.
    pub fn trim_left(&mut self)
        requires
            old(self).wf(),
        ensures
            final(self).wf(),
            final(self)@.content == old(self)@.content,
            final(self)@.cursor == skip_space(old(self)@.content, old(self)@.cursor as int),
    {
        let ghost from = self@.cursor as int;
        while self.is_not_empty() && is_whitespace(self.content[self.cursor])
            invariant
                self.wf(),
                self@.content == old(self)@.content,
                from <= self@.cursor,
                forall|k: int| from <= k < self@.cursor ==> whitespace(#[trigger] self@.content[k]),
            decreases self@.content.len() - self@.cursor,
        {
            self.chop_char();
        }
        proof {
            lemma_run_end_at(self@.content, from, self@.cursor as int, |c: char| whitespace(c));
        }
    }

    /// Consumes characters up to the next line feed or the end of the buffer.
    fn chop_line(&mut self)
        requires
            old(self).wf(),
        ensures
            final(self).wf(),
            final(self)@.content == old(self)@.content,
            old(self)@.cursor <= final(self)@.cursor,
            final(self)@.cursor == run_end(
                old(self)@.content,
                old(self)@.cursor as int,
                |c: char| not_newline(c),
            ),
    {
        let ghost from = self@.cursor as int;
        while self.is_not_empty() && self.content[self.cursor] != '\n'
            invariant
                self.wf(),
                self@.content == old(self)@.content,
                from <= self@.cursor,
                forall|k: int| from <= k < self@.cursor ==> not_newline(#[trigger] self@.content[k]),
            decreases self@.content.len() - self@.cursor,
        {
            self.chop_char();
        }
        proof {
            lemma_run_end_at(self@.content, from, self@.cursor as int, |c: char| not_newline(c));
        }
    }

    /// Produces the next token and moves the cursor past it, or returns
    /// `None` once only whitespace remains. Any character that no rule
    /// claims becomes an `Invalid` token, so every call that finds input
    /// consumes at least one character.
    pub fn next(&mut self) -> (r: Option<Token>)
        requires
            old(self).wf(),
        ensures
            final(self).wf(),
            final(self)@.content == old(self)@.content,
            (token_view(r), final(self)@.cursor as int) == scan(
                old(self)@.content,
                old(self)@.cursor as int,
            ),
            old(self)@.cursor <= final(self)@.cursor,
            r is Some ==> old(self)@.cursor < final(self)@.cursor,
            r is None ==> final(self)@.cursor == final(self)@.content.len(),
            final(self)@.row == newline_count(
                final(self)@.content.subrange(0, final(self)@.cursor as int),
            ),
    {
        let ghost s = self@.content;
        self.trim_left();
        let ghost b = self@.cursor as int;
        proof {
            lemma_run_end(s, old(self)@.cursor as int, |c: char| whitespace(c));
        }
        if !self.is_not_empty() {
            return None;
        }
        let first_char = self.content[self.cursor];
        if first_char == '#' {
            let index = self.cursor;
            self.chop_line();
            let value = text_of(self.content, index, self.cursor);
            proof {
                lemma_run_end(s, b, |c: char| not_newline(c));
            }
            if self.is_not_empty() {
                self.chop_char();
            }
            return Some(Token { value, kind: TokenKind::Preprocessor });
        }
        if first_char == '-' || is_alphabetic(first_char) {
            let index = self.cursor;
            self.chop_char();
            let ghost from = self@.cursor as int;
            while self.is_not_empty() && is_alphanumeric(self.content[self.cursor])
                invariant
                    self.wf(),
                    self@.content == s,
                    from <= self@.cursor,
                    forall|k: int|
                        from <= k < self@.cursor ==> alphanumeric(#[trigger] self@.content[k]),
                decreases self@.content.len() - self@.cursor,
            {
                self.chop_char();
            }
            proof {
                lemma_run_end_at(s, from, self@.cursor as int, |c: char| alphanumeric(c));
            }
            return Some(Token {
                value: text_of(self.content, index, self.cursor),
                kind: TokenKind::Identifier,
            });
        }
        if self.content.len() > 2
            && self.cursor + 1 < self.content.len()
            && self.content[self.cursor] == '/'
            && self.content[self.cursor + 1] == '/'
        {
            self.chop_char();
            self.chop_char();
            let index = self.cursor;
            self.chop_line();
            let value = text_of(self.content, index, self.cursor);
            proof {
                lemma_run_end(s, b + 2, |c: char| not_newline(c));
            }
            if self.is_not_empty() {
                self.chop_char();
            }
            return Some(Token { value, kind: TokenKind::Comment });
        }
        if is_decimal_digit(first_char) {
            let index = self.cursor;
            let ghost from = self@.cursor as int;
            while self.is_not_empty() && is_decimal_digit(self.content[self.cursor])
                invariant
                    self.wf(),
                    self@.content == s,
                    from <= self@.cursor,
                    forall|k: int|
                        from <= k < self@.cursor ==> decimal_digit(#[trigger] self@.content[k]),
                decreases self@.content.len() - self@.cursor,
            {
                self.chop_char();
            }
            proof {
                lemma_run_end_at(s, from, self@.cursor as int, |c: char| decimal_digit(c));
            }
            return Some(Token {
                value: text_of(self.content, index, self.cursor),
                kind: TokenKind::Number,
            });
        }
        let value = text_of(self.content, self.cursor, self.cursor + 1);
        proof {
            assert(value@ =~= seq![first_char]);
        }
        self.chop_char();
        match punctuation_kind(first_char) {
            Some(kind) => Some(Token { value, kind }),
            None => Some(Token { value, kind: TokenKind::Invalid }),
        }
    }
}

/// The models of a sequence of tokens.
pub open spec fn token_views(ts: Seq<Token>) -> Seq<(Seq<char>, TokenKind)> {
    ts.map_values(|t: Token| t@)
}

/// Scans the whole of `content`, pulling tokens until none remain.
pub fn tokenize(content: &[char]) -> (r: Vec<Token>)
    ensures
        token_views(r@) == tokens(content@),
{
    let mut lexer = Lexer::new(content);
    let mut out: Vec<Token> = Vec::new();
    assert(token_views(out@) =~= Seq::empty());
    loop
        invariant
            lexer.wf(),
            lexer@.content == content@,
            token_views(out@) + tokens_from(content@, lexer@.cursor as int) == tokens(content@),
        ensures
            token_views(out@) == tokens(content@),
        decreases content@.len() - lexer@.cursor,
    {
        let ghost before = lexer@.cursor as int;
        match lexer.next() {
            Some(t) => {
                proof {
                    let rest = tokens_from(content@, lexer@.cursor as int);
                    assert(tokens_from(content@, before) == seq![t@] + rest);
                    assert(token_views(out@.push(t)) =~= token_views(out@).push(t@));
                    assert(token_views(out@) + (seq![t@] + rest) =~= token_views(out@).push(t@)
                        + rest);
                }
                out.push(t);
            },
            None => {
                proof {
                    assert(tokens_from(content@, before) == Seq::<(Seq<char>, TokenKind)>::empty());
                    assert(token_views(out@) + Seq::empty() =~= token_views(out@));
                }
                break;
            },
        }
    }
    out
}

} // verus!
