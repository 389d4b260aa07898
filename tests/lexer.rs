use clexer::lexer::{tokenize, Lexer};
use clexer::token::{Token, TokenKind};

fn chars(s: &str) -> Vec<char> {
    s.chars().collect()
}

fn all_tokens(s: &str) -> Vec<(String, TokenKind)> {
    let content = chars(s);
    let mut lexer = Lexer::new(&content);
    let mut out = Vec::new();
    while let Some(t) = lexer.next() {
        out.push((t.value, t.kind));
    }
    out
}

fn tok(s: &str, kind: TokenKind) -> (String, TokenKind) {
    (s.to_string(), kind)
}

#[test]
fn number_alone() {
    assert_eq!(all_tokens("123"), vec![tok("123", TokenKind::Number)]);
}

#[test]
fn call_statement() {
    assert_eq!(
        all_tokens("foo();"),
        vec![
            tok("foo", TokenKind::Identifier),
            tok("(", TokenKind::OpenParen),
            tok(")", TokenKind::CloseParen),
            tok(";", TokenKind::Semicolon),
        ]
    );
}

#[test]
fn line_comment_keeps_leading_space() {
    assert_eq!(all_tokens("// hi\n"), vec![tok(" hi", TokenKind::Comment)]);
}

#[test]
fn preprocessor_line_then_identifier() {
    assert_eq!(
        all_tokens("#define X 1\nfoo"),
        vec![tok("#define X 1", TokenKind::Preprocessor), tok("foo", TokenKind::Identifier)]
    );
}

#[test]
fn unknown_character_is_invalid() {
    assert_eq!(all_tokens("@"), vec![tok("@", TokenKind::Invalid)]);
}

#[test]
fn empty_input_ends_at_once() {
    let content = chars("");
    let mut lexer = Lexer::new(&content);
    assert_eq!(lexer.next(), None);
    assert_eq!(lexer.cursor(), 0);
}

#[test]
fn braces_and_punctuation() {
    assert_eq!(
        all_tokens("{ } ( ) ;"),
        vec![
            tok("{", TokenKind::OpenBrace),
            tok("}", TokenKind::CloseBrace),
            tok("(", TokenKind::OpenParen),
            tok(")", TokenKind::CloseParen),
            tok(";", TokenKind::Semicolon),
        ]
    );
}

#[test]
fn lone_minus_is_one_character_identifier() {
    assert_eq!(
        all_tokens("- 1"),
        vec![tok("-", TokenKind::Identifier), tok("1", TokenKind::Number)]
    );
}

#[test]
fn minus_starts_identifier_run() {
    assert_eq!(all_tokens("-abc2"), vec![tok("-abc2", TokenKind::Identifier)]);
    assert_eq!(
        all_tokens("-5"),
        vec![tok("-5", TokenKind::Identifier)]
    );
}

#[test]
fn digits_then_letters_split() {
    assert_eq!(
        all_tokens("123abc"),
        vec![tok("123", TokenKind::Number), tok("abc", TokenKind::Identifier)]
    );
}

#[test]
fn identifier_takes_digits_after_letter() {
    assert_eq!(all_tokens("x1y2"), vec![tok("x1y2", TokenKind::Identifier)]);
}

#[test]
fn non_ascii_letters_form_identifiers() {
    assert_eq!(all_tokens("été"), vec![tok("été", TokenKind::Identifier)]);
}

#[test]
fn short_buffer_has_no_comment() {
    assert_eq!(
        all_tokens("//"),
        vec![tok("/", TokenKind::Invalid), tok("/", TokenKind::Invalid)]
    );
}

#[test]
fn comment_in_three_characters() {
    assert_eq!(all_tokens("//x"), vec![tok("x", TokenKind::Comment)]);
}

#[test]
fn slash_at_end_is_invalid() {
    assert_eq!(
        all_tokens("ab /"),
        vec![tok("ab", TokenKind::Identifier), tok("/", TokenKind::Invalid)]
    );
}

#[test]
fn comment_without_newline_at_end() {
    assert_eq!(
        all_tokens("x // end"),
        vec![tok("x", TokenKind::Identifier), tok(" end", TokenKind::Comment)]
    );
}

#[test]
fn preprocessor_without_newline() {
    assert_eq!(all_tokens("  #include"), vec![tok("#include", TokenKind::Preprocessor)]);
}

#[test]
fn whitespace_only_gives_nothing() {
    let content = chars(" \t\n  \r\n");
    let mut lexer = Lexer::new(&content);
    assert_eq!(lexer.next(), None);
    assert_eq!(lexer.cursor(), content.len());
    assert_eq!(lexer.row(), 2);
}

#[test]
fn end_stays_end() {
    let content = chars("a ");
    let mut lexer = Lexer::new(&content);
    assert!(lexer.next().is_some());
    assert_eq!(lexer.next(), None);
    assert_eq!(lexer.next(), None);
    assert_eq!(lexer.cursor(), 2);
}

#[test]
fn every_character_is_consumed() {
    let content = chars("int main() {\n  return 0; // done\n}\n@$ #x\n");
    let mut lexer = Lexer::new(&content);
    let mut steps = 0;
    while lexer.next().is_some() {
        steps += 1;
        assert!(steps <= content.len());
    }
    assert_eq!(lexer.cursor(), content.len());
}

#[test]
fn cursor_grows_with_each_token() {
    let content = chars("a  (12)\n#p\n// c\n;");
    let mut lexer = Lexer::new(&content);
    let mut last = lexer.cursor();
    loop {
        let t = lexer.next();
        let now = lexer.cursor();
        match t {
            Some(_) => assert!(now > last),
            None => {
                assert!(now >= last);
                break;
            }
        }
        last = now;
    }
}

#[test]
fn row_counts_consumed_newlines() {
    let text = "a\nb\n\n#p\n// c\nd";
    let content = chars(text);
    let mut lexer = Lexer::new(&content);
    assert_eq!(lexer.row(), 0);
    while lexer.next().is_some() {
        let consumed = content[..lexer.cursor()].iter().filter(|c| **c == '\n').count();
        assert_eq!(lexer.row(), consumed);
        let start = content[..lexer.cursor()]
            .iter()
            .rposition(|c| *c == '\n')
            .map_or(0, |p| p + 1);
        assert_eq!(lexer.line_start(), start);
    }
    assert_eq!(lexer.row(), 5);
    assert_eq!(lexer.line_start(), text.len() - 1);
}

#[test]
fn chop_char_counts_a_newline() {
    let content = chars("\nx");
    let mut lexer = Lexer::new(&content);
    assert!(lexer.is_not_empty());
    lexer.chop_char();
    assert_eq!((lexer.cursor(), lexer.row(), lexer.line_start()), (1, 1, 1));
    lexer.chop_char();
    lexer.chop_char();
    assert_eq!(lexer.cursor(), 2);
    assert!(!lexer.is_not_empty());
}

#[test]
fn trim_left_skips_unicode_space() {
    let content = chars("\u{a0}\u{3000} x");
    let mut lexer = Lexer::new(&content);
    lexer.trim_left();
    assert_eq!(lexer.cursor(), 3);
}

#[test]
fn same_input_same_tokens() {
    let content = chars("f(1); #a\n// b\n@");
    let first = tokenize(&content);
    let second = tokenize(&content.clone());
    assert_eq!(first, second);
    assert_eq!(first.len(), 8);
}

#[test]
fn tokenize_matches_pulling() {
    let text = "while (x) { y; }";
    let pulled: Vec<Token> = {
        let content = chars(text);
        let mut lexer = Lexer::new(&content);
        let mut v = Vec::new();
        while let Some(t) = lexer.next() {
            v.push(t);
        }
        v
    };
    assert_eq!(tokenize(&chars(text)), pulled);
    assert_eq!(pulled[0].value, "while");
    assert_eq!(pulled[7].kind, TokenKind::CloseBrace);
}
