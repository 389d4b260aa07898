//! What the scanner computes, stated over character sequences.
use vstd::prelude::*;
use crate::chars::{alphabetic, alphanumeric, decimal_digit, whitespace};
use crate::token::{punctuation, TokenKind};

verus! {

/// The number of line feeds in `s`.
pub open spec fn newline_count(s: Seq<char>) -> nat
    decreases s.len(),
{
    if s.len() == 0 {
        0
    } else {
        newline_count(s.drop_last()) + if s.last() == '\n' { 1nat } else { 0nat }
    }
}

/// The index just after the last line feed of `s`, or 0 when it has none.
pub open spec fn line_start(s: Seq<char>) -> nat
    decreases s.len(),
{
    if s.len() == 0 {
        0
    } else if s.last() == '\n' {
        s.len()
    } else {
        line_start(s.drop_last())
    }
}

/// Any character but a line feed.
pub open spec fn not_newline(c: char) -> bool {
    c != '\n'
}

/// The end of the longest run of characters from index `i` on that satisfy `p`.
pub open spec fn run_end(s: Seq<char>, i: int, p: spec_fn(char) -> bool) -> int
    decreases s.len() - i,
{
    if 0 <= i < s.len() && p(s[i]) {
        run_end(s, i + 1, p)
    } else {
        i
    }
}

/// Where the cursor stands once the whitespace at `i` is skipped.
pub open spec fn skip_space(s: Seq<char>, i: int) -> int {
    run_end(s, i, |c: char| whitespace(c))
}

/// Steps over the line feed at `i`, if there is one.
pub open spec fn past_newline(s: Seq<char>, i: int) -> int {
    if 0 <= i < s.len() { i + 1 } else { i }
}

/// Whether a line comment starts at `b`. The two-character lookahead is
/// only tried in a buffer of more than two characters.
pub open spec fn comment_at(s: Seq<char>, b: int) -> bool {
    &&& s.len() > 2
    &&& 0 <= b
    &&& b + 1 < s.len()
    &&& s[b] == '/'
    &&& s[b + 1] == '/'
}

/// One scanning step from cursor `i`: the token found, if any, and the
/// cursor after it. Rules are tried in order, the first that applies wins.
pub open spec fn scan(s: Seq<char>, i: int) -> (Option<(Seq<char>, TokenKind)>, int) {
    let b = skip_space(s, i);
    if b < 0 || b >= s.len() {
        (None, b)
    } else {
        let c = s[b];
        if c == '#' {
            let e = run_end(s, b, |c: char| not_newline(c));
            (Some((s.subrange(b, e), TokenKind::Preprocessor)), past_newline(s, e))
        } else if c == '-' || alphabetic(c) {
            let e = run_end(s, b + 1, |c: char| alphanumeric(c));
            (Some((s.subrange(b, e), TokenKind::Identifier)), e)
        } else if comment_at(s, b) {
            let e = run_end(s, b + 2, |c: char| not_newline(c));
            (Some((s.subrange(b + 2, e), TokenKind::Comment)), past_newline(s, e))
        } else if decimal_digit(c) {
            let e = run_end(s, b, |c: char| decimal_digit(c));
            (Some((s.subrange(b, e), TokenKind::Number)), e)
        } else {
            match punctuation(c) {
                Some(k) => (Some((seq![c], k)), b + 1),
                None => (Some((seq![c], TokenKind::Invalid)), b + 1),
            }
        }
    }
}

/// The tokens that repeated steps yield from cursor `i` until the end.
pub open spec fn tokens_from(s: Seq<char>, i: int) -> Seq<(Seq<char>, TokenKind)>
    decreases s.len() - i,
{
    let (t, j) = scan(s, i);
    match t {
        Some(tok) => if i < j <= s.len() {
            seq![tok] + tokens_from(s, j)
        } else {
            seq![]
        },
        None => seq![],
    }
}

/// The tokens of the whole buffer `s`.
pub open spec fn tokens(s: Seq<char>) -> Seq<(Seq<char>, TokenKind)> {
    tokens_from(s, 0)
}

/// A run starting inside the buffer ends inside it, with every character
/// passed over satisfying `p` and the one it stops at not.
pub proof fn lemma_run_end(s: Seq<char>, i: int, p: spec_fn(char) -> bool)
    requires
        0 <= i <= s.len(),
    ensures
        i <= run_end(s, i, p) <= s.len(),
        forall|k: int| i <= k < run_end(s, i, p) ==> p(#[trigger] s[k]),
        run_end(s, i, p) < s.len() ==> !p(s[run_end(s, i, p)]),
    decreases s.len() - i,
{
    if i < s.len() && p(s[i]) {
        lemma_run_end(s, i + 1, p);
    }
}

/// A run is determined by where it stops: the first index from `i` on whose
/// character fails `p`.
pub proof fn lemma_run_end_at(s: Seq<char>, i: int, j: int, p: spec_fn(char) -> bool)
    requires
        0 <= i <= j <= s.len(),
        forall|k: int| i <= k < j ==> p(#[trigger] s[k]),
        j < s.len() ==> !p(s[j]),
    ensures
        run_end(s, i, p) == j,
    decreases j - i,
{
    if i < j {
        lemma_run_end_at(s, i + 1, j, p);
    }
}

/// Line feeds in a prefix grow by one exactly when the next character is one.
pub proof fn lemma_newline_count_step(s: Seq<char>, i: int)
    requires
        0 <= i < s.len(),
    ensures
        newline_count(s.subrange(0, i + 1)) == newline_count(s.subrange(0, i))
            + if s[i] == '\n' { 1nat } else { 0nat },
        line_start(s.subrange(0, i + 1)) == if s[i] == '\n' {
            (i + 1) as nat
        } else {
            line_start(s.subrange(0, i))
        },
{
    assert(s.subrange(0, i + 1).drop_last() =~= s.subrange(0, i));
}

/// There are no more line feeds than characters.
pub proof fn lemma_newline_count_bound(s: Seq<char>)
    ensures
        newline_count(s) <= s.len(),
    decreases s.len(),
{
    if s.len() > 0 {
        lemma_newline_count_bound(s.drop_last());
    }
}

} // verus!
