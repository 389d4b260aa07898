//! Properties of the scanner as a whole.
use vstd::prelude::*;
use crate::chars::{alphabetic, alphanumeric, decimal_digit, whitespace};
use crate::model::{
    comment_at, lemma_run_end, not_newline, scan, skip_space, tokens, tokens_from,
};
use crate::token::TokenKind;

verus! {

/// Every step makes progress or ends the input. From a cursor inside the
/// buffer a step never moves backwards nor past the end; the characters it
/// skips before its token are whitespace; a step that returns a token
/// consumes at least one character, and the token's text is a contiguous
/// piece of what it consumed; a step that returns nothing has reached the
/// end, and everything it passed over was whitespace.
pub proof fn lemma_scan_progress(s: Seq<char>, i: int)
    requires
        0 <= i <= s.len(),
    ensures
        i <= scan(s, i).1 <= s.len(),
        i <= skip_space(s, i) <= scan(s, i).1,
        forall|k: int| i <= k < skip_space(s, i) ==> whitespace(#[trigger] s[k]),
        scan(s, i).0 is None ==> scan(s, i).1 == s.len() && skip_space(s, i) == s.len(),
        scan(s, i).0 is Some ==> i < scan(s, i).1,
        scan(s, i).0 matches Some(tok) ==> exists|a: int|
            skip_space(s, i) <= a && a + tok.0.len() <= scan(s, i).1 && #[trigger] s.subrange(
                a,
                a + tok.0.len(),
            ) == tok.0,
{
    let b = skip_space(s, i);
    lemma_run_end(s, i, |c: char| whitespace(c));
    if b < s.len() {
        let c = s[b];
        let text = scan(s, i).0.unwrap().0;
        if c == '#' {
            lemma_run_end(s, b, |c: char| not_newline(c));
            assert(s.subrange(b, b + text.len()) == text);
        } else if c == '-' || alphabetic(c) {
            lemma_run_end(s, b + 1, |c: char| alphanumeric(c));
            assert(s.subrange(b, b + text.len()) == text);
        } else if comment_at(s, b) {
            lemma_run_end(s, b + 2, |c: char| not_newline(c));
            assert(s.subrange(b + 2, b + 2 + text.len()) == text);
        } else if decimal_digit(c) {
            lemma_run_end(s, b, |c: char| decimal_digit(c));
            assert(s.subrange(b, b + text.len()) == text);
        } else {
            assert(s.subrange(b, b + 1) =~= seq![c]);
            assert(s.subrange(b, b + text.len()) == text);
        }
    }
}

/// The end is final: once a step returns nothing, the next step from where
/// it left the cursor returns nothing again and leaves the cursor there.
pub proof fn lemma_end_is_final(s: Seq<char>, i: int)
    requires
        0 <= i <= s.len(),
        scan(s, i).0 is None,
    ensures
        scan(s, scan(s, i).1) == (None::<(Seq<char>, TokenKind)>, s.len() as int),
{
    lemma_scan_progress(s, i);
    lemma_scan_progress(s, s.len() as int);
}

/// Scanning terminates: from cursor `i` repeated steps yield at most one
/// token per remaining character before they return nothing.
pub proof fn lemma_tokens_bounded(s: Seq<char>, i: int)
    requires
        0 <= i <= s.len(),
    ensures
        tokens_from(s, i).len() <= s.len() - i,
    decreases s.len() - i,
{
    lemma_scan_progress(s, i);
    let j = scan(s, i).1;
    if scan(s, i).0 is Some {
        lemma_tokens_bounded(s, j);
    }
}

/// Classification is deterministic: equal buffers give equal token sequences.
pub proof fn lemma_deterministic(a: Seq<char>, b: Seq<char>)
    requires
        a == b,
    ensures
        tokens(a) == tokens(b),
{
}

} // verus!
