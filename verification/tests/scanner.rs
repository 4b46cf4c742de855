use mochi::scanner::{is_well_indented, Scanner};
use mochi::token::{ScanError, ScanOutput, Token};

fn scan(source: &str) -> Vec<ScanOutput> {
    let input = source.as_bytes().to_vec();
    assert!(is_well_indented(&input));
    let mut scanner = Scanner::new(input);
    let mut items = Vec::new();
    while let Some(item) = scanner.next() {
        items.push(item);
    }
    assert_eq!(scanner.next(), None);
    items
}

fn tokens(source: &str) -> Vec<Token<Vec<u8>>> {
    scan(source)
        .into_iter()
        .map(|item| match item {
            Ok((_, token, _)) => token,
            Err(error) => panic!("no token: {:?}", error),
        })
        .collect()
}

fn ident(name: &str) -> Token<Vec<u8>> {
    Token::Ident(name.as_bytes().to_vec())
}

fn number(digits: &str) -> Token<Vec<u8>> {
    Token::IntLiteral(digits.as_bytes().to_vec())
}

fn text(body: &str) -> Token<Vec<u8>> {
    Token::StringLiteral(body.as_bytes().to_vec())
}

fn count(items: &[ScanOutput], wanted: &Token<Vec<u8>>) -> usize {
    items
        .iter()
        .filter(|item| match item {
            Ok((_, token, _)) => token == wanted,
            Err(_) => false,
        })
        .count()
}

#[test]
fn let_binding_line() {
    assert_eq!(
        scan("let x = 5\n"),
        vec![
            Ok((0, Token::KwdLet, 3)),
            Ok((4, ident("x"), 5)),
            Ok((6, Token::SymEqual, 7)),
            Ok((8, number("5"), 9)),
            Ok((10, Token::Sep, 10)),
        ]
    );
}

#[test]
fn let_binding_line_without_line_feed() {
    assert_eq!(
        scan("let x = 5"),
        vec![
            Ok((0, Token::KwdLet, 3)),
            Ok((4, ident("x"), 5)),
            Ok((6, Token::SymEqual, 7)),
            Ok((8, number("5"), 9)),
            Ok((9, Token::Sep, 9)),
        ]
    );
}

#[test]
fn bad_symbol_stops_the_line_only() {
    assert_eq!(
        scan("@\nx\n"),
        vec![
            Err(ScanError::BadSymbol(0)),
            Ok((2, ident("x"), 3)),
            Ok((4, Token::Sep, 4)),
        ]
    );
}

#[test]
fn bad_symbol_behind_tokens_and_whitespace() {
    assert_eq!(
        scan("  a @ b\nc"),
        vec![
            Ok((0, Token::Indent, 2)),
            Ok((2, ident("a"), 3)),
            Err(ScanError::BadSymbol(4)),
            Ok((8, Token::Dedent, 8)),
            Ok((8, ident("c"), 9)),
            Ok((9, Token::Sep, 9)),
        ]
    );
}

#[test]
fn empty_input_has_no_tokens() {
    assert_eq!(scan(""), vec![]);
}

#[test]
fn blank_line_gives_one_separator() {
    assert_eq!(scan("\n"), vec![Ok((0, Token::Sep, 0))]);
    assert_eq!(scan("  \t \r\n"), vec![Ok((0, Token::Sep, 0))]);
}

#[test]
fn blank_line_leaves_the_blocks_open() {
    assert_eq!(
        tokens("a\n  b\n\n  c\n"),
        vec![
            ident("a"),
            Token::Sep,
            Token::Indent,
            ident("b"),
            Token::Sep,
            Token::Sep,
            ident("c"),
            Token::Sep,
            Token::Dedent,
        ]
    );
}

#[test]
fn deeper_line_opens_a_block() {
    assert_eq!(
        scan("a\n  b\n"),
        vec![
            Ok((0, ident("a"), 1)),
            Ok((2, Token::Sep, 2)),
            Ok((2, Token::Indent, 4)),
            Ok((4, ident("b"), 5)),
            Ok((6, Token::Sep, 6)),
            Ok((6, Token::Dedent, 6)),
        ]
    );
}

#[test]
fn shallower_line_closes_every_deeper_block() {
    assert_eq!(
        tokens("a\n  b\n    c\nd\n"),
        vec![
            ident("a"),
            Token::Sep,
            Token::Indent,
            ident("b"),
            Token::Sep,
            Token::Indent,
            ident("c"),
            Token::Sep,
            Token::Dedent,
            Token::Dedent,
            ident("d"),
            Token::Sep,
        ]
    );
}

#[test]
fn shallower_line_may_close_one_block_of_two() {
    assert_eq!(
        scan("a\n  b\n    c\n  d\n"),
        vec![
            Ok((0, ident("a"), 1)),
            Ok((2, Token::Sep, 2)),
            Ok((2, Token::Indent, 4)),
            Ok((4, ident("b"), 5)),
            Ok((6, Token::Sep, 6)),
            Ok((6, Token::Indent, 10)),
            Ok((10, ident("c"), 11)),
            Ok((12, Token::Sep, 12)),
            Ok((12, Token::Dedent, 12)),
            Ok((14, ident("d"), 15)),
            Ok((16, Token::Sep, 16)),
            Ok((16, Token::Dedent, 16)),
        ]
    );
}

#[test]
fn end_of_input_closes_the_open_blocks() {
    let items = scan("a\n b\n  c");
    let n = items.len();
    assert_eq!(items[n - 2], Ok((8, Token::Dedent, 8)));
    assert_eq!(items[n - 1], Ok((8, Token::Dedent, 8)));
}

#[test]
fn tabs_and_spaces_count_alike() {
    assert_eq!(
        tokens("a\n\tb\n c\n"),
        vec![
            ident("a"),
            Token::Sep,
            Token::Indent,
            ident("b"),
            Token::Sep,
            ident("c"),
            Token::Sep,
            Token::Dedent,
        ]
    );
}

#[test]
fn dedents_match_indents() {
    for source in [
        "",
        "a\n",
        "a\n  b\n",
        "a\n  b\n    c\n      d\ne\n  f\n",
        "  a\n    b\n  c\n    d",
        "a\n  @\n    b\n\n\n  c",
        "if x\n  return 1\n\nuse y\n",
    ] {
        let items = scan(source);
        assert_eq!(count(&items, &Token::Dedent), count(&items, &Token::Indent));
    }
}

#[test]
fn inconsistent_indentation_is_told() {
    assert!(!is_well_indented(&b"a\n    b\n  c\n".to_vec()));
    assert!(!is_well_indented(&b"  a\n b\n".to_vec()));
    assert!(is_well_indented(&b"a\n    b\n  \nc\n".to_vec()));
    assert!(is_well_indented(&b"".to_vec()));
}

#[test]
fn scanner_is_made_for_consistent_input_only() {
    assert!(Scanner::try_new(b"a\n    b\n  c\n".to_vec()).is_none());
    let mut scanner = match Scanner::try_new(b"a\n".to_vec()) {
        Some(scanner) => scanner,
        None => panic!("the input is indented consistently"),
    };
    assert_eq!(scanner.next(), Some(Ok((0, ident("a"), 1))));
    assert_eq!(scanner.next(), Some(Ok((2, Token::Sep, 2))));
    assert_eq!(scanner.next(), None);
    assert_eq!(scanner.next(), None);
}

#[test]
fn continued_line_is_joined_with_the_next() {
    assert_eq!(
        scan("fo\\\no = 1\nx"),
        vec![
            Ok((0, ident("foo"), 5)),
            Ok((6, Token::SymEqual, 7)),
            Ok((8, number("1"), 9)),
            Ok((10, Token::Sep, 10)),
            Ok((10, ident("x"), 11)),
            Ok((11, Token::Sep, 11)),
        ]
    );
}

#[test]
fn continuation_may_repeat_and_end_in_carriage_return() {
    assert_eq!(
        scan("a \\\r\nb \\\\\\\nc\n"),
        vec![
            Ok((0, ident("a"), 1)),
            Ok((5, ident("b"), 6)),
            Ok((11, ident("c"), 12)),
            Ok((13, Token::Sep, 13)),
        ]
    );
}

#[test]
fn continuation_at_the_end_of_input() {
    assert_eq!(
        scan("a \\\n"),
        vec![Ok((0, ident("a"), 1)), Ok((4, Token::Sep, 4))]
    );
    assert_eq!(scan("\\\n"), vec![Ok((0, Token::Sep, 0))]);
}

#[test]
fn keywords_are_told_from_identifiers() {
    assert_eq!(
        tokens("class extern for fn if in let match return use\n"),
        vec![
            Token::KwdClass,
            Token::KwdExtern,
            Token::KwdFor,
            Token::KwdFn,
            Token::KwdIf,
            Token::KwdIn,
            Token::KwdLet,
            Token::KwdMatch,
            Token::KwdReturn,
            Token::KwdUse,
            Token::Sep,
        ]
    );
    assert_eq!(
        tokens("classes lets _x x_1 iff\n"),
        vec![
            ident("classes"),
            ident("lets"),
            ident("_x"),
            ident("x_1"),
            ident("iff"),
            Token::Sep,
        ]
    );
}

#[test]
fn identifier_comes_before_symbols() {
    assert_eq!(
        tokens("_ _a a_ __\n"),
        vec![
            Token::SymUnderscore,
            ident("_a"),
            ident("a_"),
            ident("__"),
            Token::Sep,
        ]
    );
}

#[test]
fn two_character_symbols() {
    assert_eq!(
        tokens(".. == != -> =>\n"),
        vec![
            Token::SymDblDot,
            Token::SymDblEqual,
            Token::SymNotEqual,
            Token::SymArrow,
            Token::SymDblArrow,
            Token::Sep,
        ]
    );
}

#[test]
fn one_character_symbols() {
    assert_eq!(
        tokens("= < > ( ) : . , % + - ; / *\n"),
        vec![
            Token::SymEqual,
            Token::SymLessThan,
            Token::SymGreaterThan,
            Token::SymParenL,
            Token::SymParenR,
            Token::SymColon,
            Token::SymDot,
            Token::SymComma,
            Token::SymPercent,
            Token::SymPlus,
            Token::SymDash,
            Token::SymSemicolon,
            Token::SymSlash,
            Token::SymStar,
            Token::Sep,
        ]
    );
    assert_eq!(
        tokens("[ ] '\n"),
        vec![
            Token::Sym1(b"[".to_vec()),
            Token::Sym1(b"]".to_vec()),
            Token::Sym1(b"'".to_vec()),
            Token::Sep,
        ]
    );
}

#[test]
fn first_pattern_wins_over_longest() {
    assert_eq!(
        tokens(">= <= === ->>\n"),
        vec![
            Token::SymGreaterThan,
            Token::SymEqual,
            Token::SymLessThan,
            Token::SymEqual,
            Token::SymDblEqual,
            Token::SymEqual,
            Token::SymArrow,
            Token::SymGreaterThan,
            Token::Sep,
        ]
    );
    assert_eq!(
        tokens("12ab 1.5\n"),
        vec![
            number("12"),
            ident("ab"),
            number("1"),
            Token::SymDot,
            number("5"),
            Token::Sep,
        ]
    );
}

#[test]
fn symbols_without_a_pattern_are_bad() {
    for source in ["&", "!", "^", "|", "~", "@", "#", "$", "?", "{", "}", "\\x"] {
        assert_eq!(scan(source), vec![Err(ScanError::BadSymbol(0))]);
    }
    assert_eq!(
        scan("a && b"),
        vec![Ok((0, ident("a"), 1)), Err(ScanError::BadSymbol(2))]
    );
}

#[test]
fn string_literals() {
    assert_eq!(
        scan("x = \"hi there\" \"\"\n"),
        vec![
            Ok((0, ident("x"), 1)),
            Ok((2, Token::SymEqual, 3)),
            Ok((4, text("hi there"), 14)),
            Ok((15, text(""), 17)),
            Ok((18, Token::Sep, 18)),
        ]
    );
    assert_eq!(
        scan("\"\u{e9}@\""),
        vec![Ok((0, text("\u{e9}@"), 5)), Ok((5, Token::Sep, 5))]
    );
}

#[test]
fn open_string_literal_is_a_quote_symbol() {
    assert_eq!(
        scan("\"ab\n"),
        vec![
            Ok((0, Token::Sym1(b"\"".to_vec()), 1)),
            Ok((1, ident("ab"), 3)),
            Ok((4, Token::Sep, 4)),
        ]
    );
}

#[test]
fn whitespace_inside_a_line_gives_no_token() {
    assert_eq!(
        scan("a \t  b\n"),
        vec![
            Ok((0, ident("a"), 1)),
            Ok((5, ident("b"), 6)),
            Ok((7, Token::Sep, 7)),
        ]
    );
    assert_eq!(
        scan("a\rb\n"),
        vec![Ok((0, ident("a"), 1)), Err(ScanError::BadSymbol(1))]
    );
}

#[test]
fn offsets_count_from_the_start_of_the_input() {
    assert_eq!(
        scan("ab\ncd ef\n"),
        vec![
            Ok((0, ident("ab"), 2)),
            Ok((3, Token::Sep, 3)),
            Ok((3, ident("cd"), 5)),
            Ok((6, ident("ef"), 8)),
            Ok((9, Token::Sep, 9)),
        ]
    );
}

#[test]
fn whitespace_beyond_ascii_is_trimmed_from_the_ends_of_a_line() {
    assert_eq!(scan("\u{a0}\u{3000}\n"), vec![Ok((0, Token::Sep, 0))]);
    assert_eq!(
        scan("\u{a0}x\u{2003}\n"),
        vec![Ok((2, ident("x"), 3)), Ok((7, Token::Sep, 7))]
    );
    assert_eq!(
        scan("x\u{a0}y\n"),
        vec![Ok((0, ident("x"), 1)), Err(ScanError::BadSymbol(1))]
    );
}
