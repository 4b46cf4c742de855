//! The lexical grammar: the six patterns that are tried at each offset of a
//! line, and the token that a match stands for.

use crate::bytes::{
    byte_in_class, copy_range, in_class, is_letter, lemma_run_len, lexeme_is, measure_run,
    run_len, ByteClass, QUOTE, UNDERSCORE,
};
use crate::token::{delivers, Lexed, ScanError, ScanOutput, Token};
use std::collections::VecDeque;
use vstd::prelude::*;

verus! {

/// The patterns of the grammar, in the order in which they are tried.
#[derive(Clone, Copy, Debug, PartialEq, Eq, Structural)]
pub enum Pattern {
    /// An identifier or a keyword: a letter and then word bytes, or an
    /// underscore and then at least one word byte.
    Word,
    /// An integer literal: digits.
    Number,
    /// A string literal: a double quote, bytes that are no double quote, and
    /// a double quote.
    Text,
    /// One of the two-character symbols `..`, `==`, `!=`, `->` and `=>`.
    Pair,
    /// A one-character symbol.
    Single,
    /// Whitespace inside the line.
    Space,
}

/// Whether `first` and then `second` spell a two-character symbol.
pub open spec fn is_pair(first: u8, second: u8) -> bool {
    ||| (first == 46 && second == 46)  // ..
    ||| (first == 61 && second == 61)  // ==
    ||| (first == 33 && second == 61)  // !=
    ||| (first == 45 && second == 62)  // ->
    ||| (first == 61 && second == 62)  // =>

}

/// Whether `b` is a one-character symbol: one of `= < > ( ) [ ] _ % " ' *`, or a
/// byte from `+` to `;`.
pub open spec fn is_single(b: u8) -> bool {
    ||| b == 61 || b == 60 || b == 62  // = < >
    ||| b == 40 || b == 41  // ( )
    ||| b == 91 || b == 93  // [ ]
    ||| b == 95 || b == 37  // _ %
    ||| b == 34 || b == 39 || b == 42  // " ' *
    ||| (43 <= b && b <= 59)  // + , - . / 0-9 : ;

}

/// The length of what `pattern` matches in `text` at `at` without reaching
/// `end`; 0 where it does not match.
pub open spec fn match_len(pattern: Pattern, text: Seq<u8>, at: int, end: int) -> int {
    if !(0 <= at < end <= text.len()) {
        0
    } else {
        match pattern {
            Pattern::Word => if is_letter(text[at]) {
                1 + run_len(text, at + 1, end, ByteClass::Word)
            } else if text[at] == UNDERSCORE && at + 1 < end && in_class(
                ByteClass::Word,
                text[at + 1],
            ) {
                1 + run_len(text, at + 1, end, ByteClass::Word)
            } else {
                0
            },
            Pattern::Number => run_len(text, at, end, ByteClass::Digit),
            Pattern::Text => if text[at] == QUOTE && at + 1 + run_len(
                text,
                at + 1,
                end,
                ByteClass::Unquoted,
            ) < end {
                run_len(text, at + 1, end, ByteClass::Unquoted) + 2
            } else {
                0
            },
            Pattern::Pair => if at + 1 < end && is_pair(text[at], text[at + 1]) {
                2
            } else {
                0
            },
            Pattern::Single => if is_single(text[at]) {
                1
            } else {
                0
            },
            Pattern::Space => run_len(text, at, end, ByteClass::Space),
        }
    }
}

/// The first pattern, in the order of trial, that matches at `at`, with the
/// length of its match.
pub open spec fn first_match(text: Seq<u8>, at: int, end: int) -> Option<(Pattern, int)> {
    if match_len(Pattern::Word, text, at, end) > 0 {
        Some((Pattern::Word, match_len(Pattern::Word, text, at, end)))
    } else if match_len(Pattern::Number, text, at, end) > 0 {
        Some((Pattern::Number, match_len(Pattern::Number, text, at, end)))
    } else if match_len(Pattern::Text, text, at, end) > 0 {
        Some((Pattern::Text, match_len(Pattern::Text, text, at, end)))
    } else if match_len(Pattern::Pair, text, at, end) > 0 {
        Some((Pattern::Pair, match_len(Pattern::Pair, text, at, end)))
    } else if match_len(Pattern::Single, text, at, end) > 0 {
        Some((Pattern::Single, match_len(Pattern::Single, text, at, end)))
    } else if match_len(Pattern::Space, text, at, end) > 0 {
        Some((Pattern::Space, match_len(Pattern::Space, text, at, end)))
    } else {
        None
    }
}

/// A match is never longer than the window.
pub proof fn lemma_match_len_bounds(pattern: Pattern, text: Seq<u8>, at: int, end: int)
    ensures
        0 <= match_len(pattern, text, at, end),
        match_len(pattern, text, at, end) > 0 ==> 0 <= at && at + match_len(
            pattern,
            text,
            at,
            end,
        ) <= end && end <= text.len(),
{
    if 0 <= at < end <= text.len() {
        lemma_run_len(text, at + 1, end, ByteClass::Word);
        lemma_run_len(text, at + 1, end, ByteClass::Unquoted);
        lemma_run_len(text, at, end, ByteClass::Digit);
        lemma_run_len(text, at, end, ByteClass::Space);
    }
}

/// Measures what `pattern` matches at `at`.
pub fn measure_match(pattern: Pattern, text: &Vec<u8>, at: usize, end: usize) -> (n: usize)
    requires
        at < end <= text@.len(),
    ensures
        n == match_len(pattern, text@, at as int, end as int),
        at + n <= end,
{
    proof {
        lemma_match_len_bounds(pattern, text@, at as int, end as int);
    }
    let b: u8 = text[at];
    match pattern {
        Pattern::Word => {
            if byte_in_class(ByteClass::Word, b) && !byte_in_class(ByteClass::Digit, b) && b
                != UNDERSCORE {
                1 + measure_run(text, at + 1, end, ByteClass::Word)
            } else if b == UNDERSCORE && at + 1 < end && byte_in_class(
                ByteClass::Word,
                text[at + 1],
            ) {
                1 + measure_run(text, at + 1, end, ByteClass::Word)
            } else {
                0
            }
        },
        Pattern::Number => measure_run(text, at, end, ByteClass::Digit),
        Pattern::Text => {
            if b != QUOTE {
                return 0;
            }
            let body: usize = measure_run(text, at + 1, end, ByteClass::Unquoted);
            if at + 1 + body < end {
                body + 2
            } else {
                0
            }
        },
        Pattern::Pair => {
            if at + 1 < end {
                let c: u8 = text[at + 1];
                if (b == 46 && c == 46) || (b == 61 && c == 61) || (b == 33 && c == 61) || (b == 45
                    && c == 62) || (b == 61 && c == 62) {
                    2
                } else {
                    0
                }
            } else {
                0
            }
        },
        Pattern::Single => {
            if b == 61 || b == 60 || b == 62 || b == 40 || b == 41 || b == 91 || b == 93 || b == 95
                || b == 37 || b == 34 || b == 39 || b == 42 || (43 <= b && b <= 59) {
                1
            } else {
                0
            }
        },
        Pattern::Space => measure_run(text, at, end, ByteClass::Space),
    }
}

/// Finds the first pattern that matches at `at`.
pub fn find_match(text: &Vec<u8>, at: usize, end: usize) -> (found: Option<(Pattern, usize)>)
    requires
        at < end <= text@.len(),
    ensures
        match found {
            Some((pattern, n)) => first_match(text@, at as int, end as int) == Some(
                (pattern, n as int),
            ) && 0 < n && at + n <= end && (pattern == Pattern::Text ==> n >= 2),
            None => first_match(text@, at as int, end as int).is_none(),
        },
{
    proof {
        lemma_run_len(text@, at + 1, end as int, ByteClass::Unquoted);
    }
    let n: usize = measure_match(Pattern::Word, text, at, end);
    if n > 0 {
        return Some((Pattern::Word, n));
    }
    let n: usize = measure_match(Pattern::Number, text, at, end);
    if n > 0 {
        return Some((Pattern::Number, n));
    }
    let n: usize = measure_match(Pattern::Text, text, at, end);
    if n > 0 {
        return Some((Pattern::Text, n));
    }
    let n: usize = measure_match(Pattern::Pair, text, at, end);
    if n > 0 {
        return Some((Pattern::Pair, n));
    }
    let n: usize = measure_match(Pattern::Single, text, at, end);
    if n > 0 {
        return Some((Pattern::Single, n));
    }
    let n: usize = measure_match(Pattern::Space, text, at, end);
    if n > 0 {
        return Some((Pattern::Space, n));
    }
    None
}

/// The keyword that `word` spells, or the identifier that it is.
pub open spec fn word_token(word: Seq<u8>) -> Token<Seq<u8>> {
    if word == [99u8, 108u8, 97u8, 115u8, 115u8]@ {
        Token::KwdClass
    } else if word == [101u8, 120u8, 116u8, 101u8, 114u8, 110u8]@ {
        Token::KwdExtern
    } else if word == [102u8, 111u8, 114u8]@ {
        Token::KwdFor
    } else if word == [102u8, 110u8]@ {
        Token::KwdFn
    } else if word == [105u8, 102u8]@ {
        Token::KwdIf
    } else if word == [105u8, 110u8]@ {
        Token::KwdIn
    } else if word == [108u8, 101u8, 116u8]@ {
        Token::KwdLet
    } else if word == [109u8, 97u8, 116u8, 99u8, 104u8]@ {
        Token::KwdMatch
    } else if word == [114u8, 101u8, 116u8, 117u8, 114u8, 110u8]@ {
        Token::KwdReturn
    } else if word == [117u8, 115u8, 101u8]@ {
        Token::KwdUse
    } else {
        Token::Ident(word)
    }
}

/// The token of a two-character symbol.
pub open spec fn pair_token(lexeme: Seq<u8>) -> Token<Seq<u8>> {
    if lexeme == [45u8, 62u8]@ {
        Token::SymArrow
    } else if lexeme == [61u8, 62u8]@ {
        Token::SymDblArrow
    } else if lexeme == [46u8, 46u8]@ {
        Token::SymDblDot
    } else if lexeme == [61u8, 61u8]@ {
        Token::SymDblEqual
    } else if lexeme == [62u8, 61u8]@ {
        Token::SymGreaterThanEquals
    } else if lexeme == [60u8, 60u8]@ {
        Token::SymLeftShift
    } else if lexeme == [60u8, 61u8]@ {
        Token::SymLessThanEquals
    } else if lexeme == [124u8, 124u8]@ {
        Token::SymLogicalOr
    } else if lexeme == [38u8, 38u8]@ {
        Token::SymLogicalAnd
    } else if lexeme == [33u8, 61u8]@ {
        Token::SymNotEqual
    } else if lexeme == [62u8, 62u8]@ {
        Token::SymRightShift
    } else {
        Token::Sym2(lexeme)
    }
}

/// The token of a one-character symbol.
pub open spec fn single_token(lexeme: Seq<u8>) -> Token<Seq<u8>> {
    if lexeme == [38u8]@ {
        Token::SymAmpersand
    } else if lexeme == [33u8]@ {
        Token::SymBang
    } else if lexeme == [94u8]@ {
        Token::SymCaret
    } else if lexeme == [58u8]@ {
        Token::SymColon
    } else if lexeme == [44u8]@ {
        Token::SymComma
    } else if lexeme == [45u8]@ {
        Token::SymDash
    } else if lexeme == [46u8]@ {
        Token::SymDot
    } else if lexeme == [61u8]@ {
        Token::SymEqual
    } else if lexeme == [62u8]@ {
        Token::SymGreaterThan
    } else if lexeme == [60u8]@ {
        Token::SymLessThan
    } else if lexeme == [40u8]@ {
        Token::SymParenL
    } else if lexeme == [41u8]@ {
        Token::SymParenR
    } else if lexeme == [37u8]@ {
        Token::SymPercent
    } else if lexeme == [124u8]@ {
        Token::SymPipe
    } else if lexeme == [43u8]@ {
        Token::SymPlus
    } else if lexeme == [59u8]@ {
        Token::SymSemicolon
    } else if lexeme == [47u8]@ {
        Token::SymSlash
    } else if lexeme == [42u8]@ {
        Token::SymStar
    } else if lexeme == [126u8]@ {
        Token::SymTilde
    } else if lexeme == [95u8]@ {
        Token::SymUnderscore
    } else {
        Token::Sym1(lexeme)
    }
}

/// The token that a match of `pattern` with the bytes `lexeme` stands for;
/// whitespace stands for none.
pub open spec fn token_of(pattern: Pattern, lexeme: Seq<u8>) -> Option<Token<Seq<u8>>> {
    match pattern {
        Pattern::Word => Some(word_token(lexeme)),
        Pattern::Number => Some(Token::IntLiteral(lexeme)),
        Pattern::Text => Some(Token::StringLiteral(lexeme.subrange(1, lexeme.len() - 1))),
        Pattern::Pair => Some(pair_token(lexeme)),
        Pattern::Single => Some(single_token(lexeme)),
        Pattern::Space => None,
    }
}

/// Makes the keyword or identifier that the bytes from `from` up to `end` spell.
pub fn make_word(text: &Vec<u8>, from: usize, end: usize) -> (token: Token<Vec<u8>>)
    requires
        from <= end <= text@.len(),
    ensures
        token@ == word_token(text@.subrange(from as int, end as int)),
{
    if lexeme_is(text, from, end, &[99u8, 108u8, 97u8, 115u8, 115u8]) {
        Token::KwdClass
    } else if lexeme_is(text, from, end, &[101u8, 120u8, 116u8, 101u8, 114u8, 110u8]) {
        Token::KwdExtern
    } else if lexeme_is(text, from, end, &[102u8, 111u8, 114u8]) {
        Token::KwdFor
    } else if lexeme_is(text, from, end, &[102u8, 110u8]) {
        Token::KwdFn
    } else if lexeme_is(text, from, end, &[105u8, 102u8]) {
        Token::KwdIf
    } else if lexeme_is(text, from, end, &[105u8, 110u8]) {
        Token::KwdIn
    } else if lexeme_is(text, from, end, &[108u8, 101u8, 116u8]) {
        Token::KwdLet
    } else if lexeme_is(text, from, end, &[109u8, 97u8, 116u8, 99u8, 104u8]) {
        Token::KwdMatch
    } else if lexeme_is(text, from, end, &[114u8, 101u8, 116u8, 117u8, 114u8, 110u8]) {
        Token::KwdReturn
    } else if lexeme_is(text, from, end, &[117u8, 115u8, 101u8]) {
        Token::KwdUse
    } else {
        Token::Ident(copy_range(text, from, end))
    }
}

/// Makes the token of the two-character symbol at `from`.
pub fn make_pair(text: &Vec<u8>, from: usize, end: usize) -> (token: Token<Vec<u8>>)
    requires
        from <= end <= text@.len(),
    ensures
        token@ == pair_token(text@.subrange(from as int, end as int)),
{
    if lexeme_is(text, from, end, &[45u8, 62u8]) {
        Token::SymArrow
    } else if lexeme_is(text, from, end, &[61u8, 62u8]) {
        Token::SymDblArrow
    } else if lexeme_is(text, from, end, &[46u8, 46u8]) {
        Token::SymDblDot
    } else if lexeme_is(text, from, end, &[61u8, 61u8]) {
        Token::SymDblEqual
    } else if lexeme_is(text, from, end, &[62u8, 61u8]) {
        Token::SymGreaterThanEquals
    } else if lexeme_is(text, from, end, &[60u8, 60u8]) {
        Token::SymLeftShift
    } else if lexeme_is(text, from, end, &[60u8, 61u8]) {
        Token::SymLessThanEquals
    } else if lexeme_is(text, from, end, &[124u8, 124u8]) {
        Token::SymLogicalOr
    } else if lexeme_is(text, from, end, &[38u8, 38u8]) {
        Token::SymLogicalAnd
    } else if lexeme_is(text, from, end, &[33u8, 61u8]) {
        Token::SymNotEqual
    } else if lexeme_is(text, from, end, &[62u8, 62u8]) {
        Token::SymRightShift
    } else {
        Token::Sym2(copy_range(text, from, end))
    }
}

/// Makes the token of the one-character symbol at `from`.
pub fn make_single(text: &Vec<u8>, from: usize, end: usize) -> (token: Token<Vec<u8>>)
    requires
        from <= end <= text@.len(),
    ensures
        token@ == single_token(text@.subrange(from as int, end as int)),
{
    if lexeme_is(text, from, end, &[38u8]) {
        Token::SymAmpersand
    } else if lexeme_is(text, from, end, &[33u8]) {
        Token::SymBang
    } else if lexeme_is(text, from, end, &[94u8]) {
        Token::SymCaret
    } else if lexeme_is(text, from, end, &[58u8]) {
        Token::SymColon
    } else if lexeme_is(text, from, end, &[44u8]) {
        Token::SymComma
    } else if lexeme_is(text, from, end, &[45u8]) {
        Token::SymDash
    } else if lexeme_is(text, from, end, &[46u8]) {
        Token::SymDot
    } else if lexeme_is(text, from, end, &[61u8]) {
        Token::SymEqual
    } else if lexeme_is(text, from, end, &[62u8]) {
        Token::SymGreaterThan
    } else if lexeme_is(text, from, end, &[60u8]) {
        Token::SymLessThan
    } else if lexeme_is(text, from, end, &[40u8]) {
        Token::SymParenL
    } else if lexeme_is(text, from, end, &[41u8]) {
        Token::SymParenR
    } else if lexeme_is(text, from, end, &[37u8]) {
        Token::SymPercent
    } else if lexeme_is(text, from, end, &[124u8]) {
        Token::SymPipe
    } else if lexeme_is(text, from, end, &[43u8]) {
        Token::SymPlus
    } else if lexeme_is(text, from, end, &[59u8]) {
        Token::SymSemicolon
    } else if lexeme_is(text, from, end, &[47u8]) {
        Token::SymSlash
    } else if lexeme_is(text, from, end, &[42u8]) {
        Token::SymStar
    } else if lexeme_is(text, from, end, &[126u8]) {
        Token::SymTilde
    } else if lexeme_is(text, from, end, &[95u8]) {
        Token::SymUnderscore
    } else {
        Token::Sym1(copy_range(text, from, end))
    }
}

/// Makes the token that a match of `pattern` from `from` up to `end` stands
/// for; whitespace stands for none.
pub fn make_token(pattern: Pattern, text: &Vec<u8>, from: usize, end: usize) -> (token: Option<
    Token<Vec<u8>>,
>)
    requires
        from <= end <= text@.len(),
        pattern == Pattern::Text ==> end - from >= 2,
    ensures
        match token {
            Some(t) => token_of(pattern, text@.subrange(from as int, end as int)) == Some(t@),
            None => token_of(pattern, text@.subrange(from as int, end as int)).is_none(),
        },
{
    match pattern {
        Pattern::Word => Some(make_word(text, from, end)),
        Pattern::Number => Some(Token::IntLiteral(copy_range(text, from, end))),
        Pattern::Text => {
            let body: Vec<u8> = copy_range(text, from + 1, end - 1);
            assert(body@ =~= text@.subrange(from as int, end as int).subrange(
                1,
                end - from - 1,
            ));
            Some(Token::StringLiteral(body))
        },
        Pattern::Pair => Some(make_pair(text, from, end)),
        Pattern::Single => Some(make_single(text, from, end)),
        Pattern::Space => None,
    }
}

/// The items that the bytes of `text` from `at` up to `end` give, read from
/// left to right: at each offset the first pattern that matches decides; a
/// match of whitespace gives nothing; where no pattern matches, the offset
/// is reported and the reading stops. `origin` holds for each byte of `text`
/// the offset at which it stands in the input.
pub open spec fn lex_from(text: Seq<u8>, origin: Seq<usize>, at: int, end: int) -> Seq<Lexed>
    decreases end - at,
{
    if !(0 <= at < end <= text.len()) {
        Seq::empty()
    } else {
        match first_match(text, at, end) {
            None => seq![Lexed::Bad(origin[at] as int)],
            Some((pattern, n)) => {
                proof {
                    lemma_match_len_bounds(pattern, text, at, end);
                }
                match token_of(pattern, text.subrange(at, at + n)) {
                    None => lex_from(text, origin, at + n, end),
                    Some(token) => seq![
                        Lexed::Tok(origin[at] as int, token, origin[at + n - 1] + 1),
                    ] + lex_from(text, origin, at + n, end),
                }
            },
        }
    }
}

/// Whether the last of `items` reports an offset at which nothing matches.
pub open spec fn ends_in_bad(items: Seq<Lexed>) -> bool {
    items.len() > 0 && items.last() is Bad
}

/// Whether `outs` are the items `items`, one for one.
pub open spec fn delivers_all(outs: Seq<ScanOutput>, items: Seq<Lexed>) -> bool {
    &&& outs.len() == items.len()
    &&& forall|k: int| 0 <= k < outs.len() ==> delivers(#[trigger] outs[k], items[k])
}

/// Reads the bytes of `text` from `from` up to `end` and appends the items to
/// `out`. Returns whether the reading reached `end`.
pub fn tokenize(
    text: &Vec<u8>,
    origin: &Vec<usize>,
    from: usize,
    end: usize,
    out: &mut VecDeque<ScanOutput>,
) -> (complete: bool)
    requires
        from <= end <= text@.len(),
        origin@.len() == text@.len(),
        forall|k: int| 0 <= k < origin@.len() ==> #[trigger] origin@[k] < usize::MAX,
    ensures
        final(out)@.len() == old(out)@.len() + lex_from(text@, origin@, from as int, end as int).len(),
        final(out)@.take(old(out)@.len() as int) == old(out)@,
        delivers_all(
            final(out)@.skip(old(out)@.len() as int),
            lex_from(text@, origin@, from as int, end as int),
        ),
        complete == !ends_in_bad(lex_from(text@, origin@, from as int, end as int)),
{
    let ghost before = out@;
    let ghost all = lex_from(text@, origin@, from as int, end as int);
    let ghost mut done: Seq<Lexed> = Seq::empty();
    let mut at: usize = from;
    assert(out@.skip(before.len() as int) =~= Seq::<ScanOutput>::empty());
    assert(out@.take(before.len() as int) =~= before);
    while at < end
        invariant
            from <= at <= end <= text@.len(),
            origin@.len() == text@.len(),
            forall|k: int| 0 <= k < origin@.len() ==> #[trigger] origin@[k] < usize::MAX,
            before == old(out)@,
            all == lex_from(text@, origin@, from as int, end as int),
            all == done + lex_from(text@, origin@, at as int, end as int),
            out@.len() == before.len() + done.len(),
            out@.take(before.len() as int) == before,
            delivers_all(out@.skip(before.len() as int), done),
            forall|k: int| 0 <= k < done.len() ==> #[trigger] done[k] is Tok,
        decreases end - at,
    {
        let ghost rest = lex_from(text@, origin@, at as int, end as int);
        let ghost queued = out@;
        match find_match(text, at, end) {
            None => {
                out.push_back(Err(ScanError::BadSymbol(origin[at])));
                proof {
                    let item = Lexed::Bad(origin@[at as int] as int);
                    assert(rest =~= seq![item]);
                    assert(all =~= done.push(item));
                    assert(out@ =~= queued.push(Err(ScanError::BadSymbol(origin@[at as int]))));
                    assert(out@.take(before.len() as int) =~= before);
                    assert(out@.skip(before.len() as int) =~= queued.skip(
                        before.len() as int,
                    ).push(Err(ScanError::BadSymbol(origin@[at as int]))));
                    assert(all.last() is Bad);
                }
                return false;
            },
            Some((pattern, n)) => {
                match make_token(pattern, text, at, at + n) {
                    None => {},
                    Some(token) => {
                        let start: usize = origin[at];
                        let stop: usize = origin[at + n - 1] + 1;
                        let ghost item = Lexed::Tok(start as int, token@, stop as int);
                        let produced: ScanOutput = Ok((start, token, stop));
                        out.push_back(produced);
                        proof {
                            assert(delivers(produced, item));
                            assert(out@ =~= queued.push(produced));
                            assert(out@.take(before.len() as int) =~= before);
                            assert(out@.skip(before.len() as int) =~= queued.skip(
                                before.len() as int,
                            ).push(produced));
                            assert(rest =~= seq![item] + lex_from(
                                text@,
                                origin@,
                                at + n,
                                end as int,
                            ));
                            assert(all =~= done.push(item) + lex_from(
                                text@,
                                origin@,
                                at + n,
                                end as int,
                            ));
                            done = done.push(item);
                        }
                    },
                }
                at += n;
            },
        }
    }
    proof {
        assert(all =~= done);
    }
    true
}

} // verus!
