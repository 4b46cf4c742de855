use mochi::bytes::{
    byte_in_class, copy_range, lexeme_is, measure_blank, measure_blank_back, measure_blank_run,
    measure_blank_run_back, measure_run, measure_run_back, ByteClass,
};
use mochi::lexer::{
    find_match, make_pair, make_single, make_token, make_word, measure_match, tokenize, Pattern,
};
use mochi::line::read_line;
use mochi::token::{ScanError, ScanOutput, Token};
use regex::Regex;
use std::collections::VecDeque;

const PATTERNS: [(Pattern, &str); 6] = [
    (Pattern::Word, r"^(([A-Za-z][A-Za-z0-9_]*)|([A-Za-z_][A-Za-z0-9_]+))"),
    (Pattern::Number, r"^([0-9]+)"),
    (Pattern::Text, r#"^("[^"]*")"#),
    (Pattern::Pair, r"^((\.\.)|(==)|(!=)|(->)|(=>))"),
    (Pattern::Single, r#"^[=<>\(\)\[\]:\.,_%"'\*+-;]"#),
    (Pattern::Space, r"^([ \t\n]+)"),
];

const SAMPLES: [&str; 16] = [
    "let x = 5",
    "fn main() -> int: return f(1, 2)",
    "_ __ _a a_ 9a a9 _9",
    "a==b!=c..d->e=>f>=g<=h<<i>>j||k&&l",
    "\"text\" \"\" \"open",
    "x = \"a b\"\"c\"d\"",
    "[1, 2, 3] 'q' %*+-;/:.,",
    "a \t b\n c",
    "@ # $ & ! ^ | ~ ? { } \\",
    "0123456789 00 1_000",
    "class extern for fn if in let match return use",
    "classy externs forfn iffy",
    "(((a)))=<>",
    "\"\u{e9}t\u{e9}\" \u{e9} x",
    "",
    "   ",
];

#[test]
fn patterns_agree_with_their_regular_expressions() {
    for (pattern, source) in PATTERNS {
        let regex = Regex::new(source).unwrap();
        for sample in SAMPLES {
            let text = sample.as_bytes().to_vec();
            for at in 0..text.len() {
                if !sample.is_char_boundary(at) {
                    continue;
                }
                let expected = regex.find(&sample[at..]).map_or(0, |found| found.end());
                assert_eq!(
                    measure_match(pattern, &text, at, text.len()),
                    expected,
                    "{:?} at {} of {:?}",
                    pattern,
                    at,
                    sample
                );
            }
        }
    }
}

#[test]
fn first_match_agrees_with_the_order_of_the_regular_expressions() {
    let regexes: Vec<(Pattern, Regex)> = PATTERNS
        .iter()
        .map(|(pattern, source)| (*pattern, Regex::new(source).unwrap()))
        .collect();
    for sample in SAMPLES {
        let text = sample.as_bytes().to_vec();
        for at in 0..text.len() {
            if !sample.is_char_boundary(at) {
                continue;
            }
            let expected = regexes.iter().find_map(|(pattern, regex)| {
                regex.find(&sample[at..]).map(|found| (*pattern, found.end()))
            });
            assert_eq!(find_match(&text, at, text.len()), expected);
        }
    }
}

#[test]
fn match_stays_within_its_window() {
    let text = b"abcdef 123".to_vec();
    assert_eq!(measure_match(Pattern::Word, &text, 0, 3), 3);
    assert_eq!(measure_match(Pattern::Word, &text, 0, 10), 6);
    assert_eq!(measure_match(Pattern::Number, &text, 7, 9), 2);
    let quoted = b"\"ab\"".to_vec();
    assert_eq!(measure_match(Pattern::Text, &quoted, 0, 4), 4);
    assert_eq!(measure_match(Pattern::Text, &quoted, 0, 3), 0);
    let pair = b"==".to_vec();
    assert_eq!(measure_match(Pattern::Pair, &pair, 0, 2), 2);
    assert_eq!(measure_match(Pattern::Pair, &pair, 0, 1), 0);
    assert_eq!(find_match(&pair, 0, 1), Some((Pattern::Single, 1)));
}

#[test]
fn byte_classes() {
    for b in 0..=255u8 {
        let c = b as char;
        assert_eq!(
            byte_in_class(ByteClass::Word, b),
            c.is_ascii_alphanumeric() || c == '_'
        );
        assert_eq!(byte_in_class(ByteClass::Digit, b), c.is_ascii_digit());
        assert_eq!(
            byte_in_class(ByteClass::Space, b),
            c == ' ' || c == '\t' || c == '\n'
        );
        assert_eq!(byte_in_class(ByteClass::Indent, b), c == ' ' || c == '\t');
        assert_eq!(
            byte_in_class(ByteClass::Blank, b),
            b < 128 && c.is_whitespace()
        );
        assert_eq!(byte_in_class(ByteClass::Unquoted, b), c != '"');
        assert_eq!(byte_in_class(ByteClass::Inline, b), c != '\n');
        assert_eq!(byte_in_class(ByteClass::Backslash, b), c == '\\');
    }
}

#[test]
fn runs_forwards_and_backwards() {
    let text = b"  ab12  ".to_vec();
    assert_eq!(measure_run(&text, 0, 8, ByteClass::Indent), 2);
    assert_eq!(measure_run(&text, 2, 8, ByteClass::Word), 4);
    assert_eq!(measure_run(&text, 2, 4, ByteClass::Word), 2);
    assert_eq!(measure_run(&text, 2, 8, ByteClass::Digit), 0);
    assert_eq!(measure_run(&text, 8, 8, ByteClass::Word), 0);
    assert_eq!(measure_run_back(&text, 0, 8, ByteClass::Blank), 2);
    assert_eq!(measure_run_back(&text, 0, 6, ByteClass::Digit), 2);
    assert_eq!(measure_run_back(&text, 5, 6, ByteClass::Word), 1);
    assert_eq!(measure_run_back(&text, 0, 0, ByteClass::Blank), 0);
}

#[test]
fn lexemes_are_copied_and_compared() {
    let text = b"let x".to_vec();
    assert_eq!(copy_range(&text, 0, 3), b"let".to_vec());
    assert_eq!(copy_range(&text, 3, 3), Vec::<u8>::new());
    assert!(lexeme_is(&text, 0, 3, b"let"));
    assert!(!lexeme_is(&text, 0, 3, b"lex"));
    assert!(!lexeme_is(&text, 0, 2, b"let"));
    assert!(!lexeme_is(&text, 0, 4, b"let"));
}

#[test]
fn tokens_of_words() {
    let text = b"return returned".to_vec();
    assert_eq!(make_word(&text, 0, 6), Token::KwdReturn);
    assert_eq!(make_word(&text, 7, 15), Token::Ident(b"returned".to_vec()));
    assert_eq!(make_word(&text, 0, 5), Token::Ident(b"retur".to_vec()));
}

#[test]
fn tokens_of_symbols_beyond_the_patterns() {
    let pairs: [(&str, Token<Vec<u8>>); 12] = [
        ("->", Token::SymArrow),
        ("=>", Token::SymDblArrow),
        ("..", Token::SymDblDot),
        ("==", Token::SymDblEqual),
        (">=", Token::SymGreaterThanEquals),
        ("<<", Token::SymLeftShift),
        ("<=", Token::SymLessThanEquals),
        ("||", Token::SymLogicalOr),
        ("&&", Token::SymLogicalAnd),
        ("!=", Token::SymNotEqual),
        (">>", Token::SymRightShift),
        ("++", Token::Sym2(b"++".to_vec())),
    ];
    for (lexeme, token) in pairs {
        assert_eq!(make_pair(&lexeme.as_bytes().to_vec(), 0, 2), token);
    }
    let singles: [(&str, Token<Vec<u8>>); 21] = [
        ("&", Token::SymAmpersand),
        ("!", Token::SymBang),
        ("^", Token::SymCaret),
        (":", Token::SymColon),
        (",", Token::SymComma),
        ("-", Token::SymDash),
        (".", Token::SymDot),
        ("=", Token::SymEqual),
        (">", Token::SymGreaterThan),
        ("<", Token::SymLessThan),
        ("(", Token::SymParenL),
        (")", Token::SymParenR),
        ("%", Token::SymPercent),
        ("|", Token::SymPipe),
        ("+", Token::SymPlus),
        (";", Token::SymSemicolon),
        ("/", Token::SymSlash),
        ("*", Token::SymStar),
        ("~", Token::SymTilde),
        ("_", Token::SymUnderscore),
        ("[", Token::Sym1(b"[".to_vec())),
    ];
    for (lexeme, token) in singles {
        assert_eq!(make_single(&lexeme.as_bytes().to_vec(), 0, 1), token);
    }
}

#[test]
fn token_of_each_pattern() {
    let text = b"ab 12 \"cd\" -> ;".to_vec();
    assert_eq!(
        make_token(Pattern::Word, &text, 0, 2),
        Some(Token::Ident(b"ab".to_vec()))
    );
    assert_eq!(
        make_token(Pattern::Number, &text, 3, 5),
        Some(Token::IntLiteral(b"12".to_vec()))
    );
    assert_eq!(
        make_token(Pattern::Text, &text, 6, 10),
        Some(Token::StringLiteral(b"cd".to_vec()))
    );
    assert_eq!(make_token(Pattern::Pair, &text, 11, 13), Some(Token::SymArrow));
    assert_eq!(
        make_token(Pattern::Single, &text, 14, 15),
        Some(Token::SymSemicolon)
    );
    assert_eq!(make_token(Pattern::Space, &text, 2, 3), None);
}

#[test]
fn tokenize_appends_to_what_is_queued() {
    let text = b"a = @ b".to_vec();
    let origin: Vec<usize> = (10..17).collect();
    let mut out: VecDeque<ScanOutput> = VecDeque::new();
    out.push_back(Ok((0, Token::Sep, 0)));
    let complete = tokenize(&text, &origin, 0, text.len(), &mut out);
    assert!(!complete);
    assert_eq!(
        out,
        VecDeque::from(vec![
            Ok((0, Token::Sep, 0)),
            Ok((10, Token::Ident(b"a".to_vec()), 11)),
            Ok((12, Token::SymEqual, 13)),
            Err(ScanError::BadSymbol(14)),
        ])
    );
    let mut rest: VecDeque<ScanOutput> = VecDeque::new();
    assert!(tokenize(&text, &origin, 5, text.len(), &mut rest));
    assert_eq!(
        rest,
        VecDeque::from(vec![Ok((16, Token::Ident(b"b".to_vec()), 17))])
    );
}

#[test]
fn logical_lines() {
    let input = b"ab\\\ncd\nef".to_vec();
    let line = read_line(&input, 0);
    assert_eq!(line.text, b"abcd\n".to_vec());
    assert_eq!(line.origin, vec![0, 1, 4, 5, 6]);
    assert_eq!(line.next, 7);
    let line = read_line(&input, 7);
    assert_eq!(line.text, b"ef".to_vec());
    assert_eq!(line.origin, vec![7, 8]);
    assert_eq!(line.next, 9);
    let line = read_line(&input, 4);
    assert_eq!(line.text, b"cd\n".to_vec());
    assert_eq!(line.next, 7);
}

#[test]
fn backslash_inside_a_line_does_not_continue_it() {
    let input = b"a\\b\nc".to_vec();
    let line = read_line(&input, 0);
    assert_eq!(line.text, b"a\\b\n".to_vec());
    assert_eq!(line.next, 4);
    let input = b"a\\".to_vec();
    let line = read_line(&input, 0);
    assert_eq!(line.text, b"a\\".to_vec());
    assert_eq!(line.next, 2);
}

#[test]
fn whitespace_at_the_ends_is_what_trimming_takes_off() {
    for sample in [
        "",
        "a",
        "  a  ",
        "\t\r\n a b \u{b}\u{c}\n",
        "\u{85}\u{a0}x\u{1680}\u{2000}",
        "\u{2001}\u{2002}\u{2003}\u{2004}\u{2005}\u{2006}\u{2007}\u{2008}\u{2009}\u{200a}",
        " \u{2028}\u{2029} y \u{202f}\u{205f}\u{3000} ",
        "\u{200b}x\u{200b}",
        "\u{a0}",
        "\u{e9} \u{e9}",
        "\u{3000}\u{3001}\u{3000}",
    ] {
        let text = sample.as_bytes().to_vec();
        let start = measure_blank_run(&text, 0, text.len());
        assert_eq!(start, sample.len() - sample.trim_start().len(), "{:?}", sample);
        let back = measure_blank_run_back(&text, start, text.len());
        assert_eq!(
            &sample[start..sample.len() - back],
            sample.trim(),
            "{:?}",
            sample
        );
    }
}

#[test]
fn whitespace_characters_of_one_two_and_three_bytes() {
    let text = " \u{a0}\u{3000}x".as_bytes().to_vec();
    assert_eq!(measure_blank(&text, 0, text.len()), 1);
    assert_eq!(measure_blank(&text, 1, text.len()), 2);
    assert_eq!(measure_blank(&text, 3, text.len()), 3);
    assert_eq!(measure_blank(&text, 6, text.len()), 0);
    assert_eq!(measure_blank(&text, 1, 2), 0);
    assert_eq!(measure_blank(&text, 3, 5), 0);
    assert_eq!(measure_blank(&text, 2, text.len()), 0);
    assert_eq!(measure_blank_back(&text, 0, 6), 3);
    assert_eq!(measure_blank_back(&text, 0, 3), 2);
    assert_eq!(measure_blank_back(&text, 0, 1), 1);
    assert_eq!(measure_blank_back(&text, 0, 7), 0);
    assert_eq!(measure_blank_back(&text, 4, 6), 0);
    assert_eq!(measure_blank_back(&text, 2, 3), 0);
}

fn sample_texts() -> Vec<String> {
    let alphabet: Vec<char> = "ab_Z09 \t\n\"'.=!->:,;()[]<>%*+/\\@&|~^#{}\u{e9}\u{3000}"
        .chars()
        .collect();
    let mut state: u64 = 0x2545_f491_4f6c_dd1d;
    let mut texts = Vec::new();
    for _ in 0..1500 {
        let mut text = String::new();
        state = state
            .wrapping_mul(6364136223846793005)
            .wrapping_add(1442695040888963407);
        let len = (state >> 33) % 12;
        for _ in 0..len {
            state = state
                .wrapping_mul(6364136223846793005)
                .wrapping_add(1442695040888963407);
            text.push(alphabet[((state >> 33) % alphabet.len() as u64) as usize]);
        }
        texts.push(text);
    }
    texts
}

#[test]
fn patterns_agree_with_their_regular_expressions_on_many_texts() {
    let regexes: Vec<(Pattern, Regex)> = PATTERNS
        .iter()
        .map(|(pattern, source)| (*pattern, Regex::new(source).unwrap()))
        .collect();
    for sample in sample_texts() {
        let text = sample.as_bytes().to_vec();
        for at in 0..text.len() {
            if !sample.is_char_boundary(at) {
                continue;
            }
            for (pattern, regex) in &regexes {
                let expected = regex.find(&sample[at..]).map_or(0, |found| found.end());
                assert_eq!(
                    measure_match(*pattern, &text, at, text.len()),
                    expected,
                    "{:?} at {} of {:?}",
                    pattern,
                    at,
                    sample
                );
            }
            let expected = regexes.iter().find_map(|(pattern, regex)| {
                regex.find(&sample[at..]).map(|found| (*pattern, found.end()))
            });
            assert_eq!(find_match(&text, at, text.len()), expected);
        }
    }
}

#[test]
fn whitespace_at_the_ends_is_what_trimming_takes_off_on_many_texts() {
    for sample in sample_texts() {
        let text = sample.as_bytes().to_vec();
        let start = measure_blank_run(&text, 0, text.len());
        assert_eq!(start, sample.len() - sample.trim_start().len(), "{:?}", sample);
        let back = measure_blank_run_back(&text, start, text.len());
        assert_eq!(&sample[start..sample.len() - back], sample.trim(), "{:?}", sample);
    }
}
