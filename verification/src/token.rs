//! The token alphabet of the scanner and the errors of scanning.

use vstd::prelude::*;
use vstd::string::*;

verus! {

/// A token. `T` is the type of the text that identifiers, literals and
/// unnamed symbols carry: `Vec<u8>` in executable code, `Seq<u8>` in
/// specifications.
#[derive(Debug, Clone, PartialEq, Eq)]
pub enum Token<T> {
    KwdClass,
    KwdExtern,
    KwdFor,
    KwdFn,
    KwdIf,
    KwdIn,
    KwdLet,
    KwdMatch,
    KwdReturn,
    KwdUse,
    SymArrow,
    SymDblArrow,
    SymDblDot,
    SymDblEqual,
    SymGreaterThanEquals,
    SymLeftShift,
    SymLessThanEquals,
    SymLogicalOr,
    SymLogicalAnd,
    SymNotEqual,
    SymRightShift,
    SymAmpersand,
    SymBang,
    SymCaret,
    SymColon,
    SymComma,
    SymDash,
    SymDot,
    SymEqual,
    SymGreaterThan,
    SymLessThan,
    SymParenL,
    SymParenR,
    SymPercent,
    SymPipe,
    SymPlus,
    SymSemicolon,
    SymSlash,
    SymStar,
    SymTilde,
    SymUnderscore,
    /// A one-character symbol that has no variant of its own.
    Sym1(T),
    /// A two-character symbol that has no variant of its own.
    Sym2(T),
    Symbol(T),
    /// The digits of an integer literal.
    IntLiteral(T),
    /// What stands between the quotes of a string literal.
    StringLiteral(T),
    Ident(T),
    /// The start of a block: the line is indented deeper than the one before.
    Indent,
    /// The end of a block.
    Dedent,
    /// The end of a line.
    Sep,
}

impl<T: View> View for Token<T> {
    type V = Token<T::V>;

    open spec fn view(&self) -> Token<T::V> {
        match *self {
            Token::KwdClass => Token::KwdClass,
            Token::KwdExtern => Token::KwdExtern,
            Token::KwdFor => Token::KwdFor,
            Token::KwdFn => Token::KwdFn,
            Token::KwdIf => Token::KwdIf,
            Token::KwdIn => Token::KwdIn,
            Token::KwdLet => Token::KwdLet,
            Token::KwdMatch => Token::KwdMatch,
            Token::KwdReturn => Token::KwdReturn,
            Token::KwdUse => Token::KwdUse,
            Token::SymArrow => Token::SymArrow,
            Token::SymDblArrow => Token::SymDblArrow,
            Token::SymDblDot => Token::SymDblDot,
            Token::SymDblEqual => Token::SymDblEqual,
            Token::SymGreaterThanEquals => Token::SymGreaterThanEquals,
            Token::SymLeftShift => Token::SymLeftShift,
            Token::SymLessThanEquals => Token::SymLessThanEquals,
            Token::SymLogicalOr => Token::SymLogicalOr,
            Token::SymLogicalAnd => Token::SymLogicalAnd,
            Token::SymNotEqual => Token::SymNotEqual,
            Token::SymRightShift => Token::SymRightShift,
            Token::SymAmpersand => Token::SymAmpersand,
            Token::SymBang => Token::SymBang,
            Token::SymCaret => Token::SymCaret,
            Token::SymColon => Token::SymColon,
            Token::SymComma => Token::SymComma,
            Token::SymDash => Token::SymDash,
            Token::SymDot => Token::SymDot,
            Token::SymEqual => Token::SymEqual,
            Token::SymGreaterThan => Token::SymGreaterThan,
            Token::SymLessThan => Token::SymLessThan,
            Token::SymParenL => Token::SymParenL,
            Token::SymParenR => Token::SymParenR,
            Token::SymPercent => Token::SymPercent,
            Token::SymPipe => Token::SymPipe,
            Token::SymPlus => Token::SymPlus,
            Token::SymSemicolon => Token::SymSemicolon,
            Token::SymSlash => Token::SymSlash,
            Token::SymStar => Token::SymStar,
            Token::SymTilde => Token::SymTilde,
            Token::SymUnderscore => Token::SymUnderscore,
            Token::Sym1(text) => Token::Sym1(text@),
            Token::Sym2(text) => Token::Sym2(text@),
            Token::Symbol(text) => Token::Symbol(text@),
            Token::IntLiteral(text) => Token::IntLiteral(text@),
            Token::StringLiteral(text) => Token::StringLiteral(text@),
            Token::Ident(text) => Token::Ident(text@),
            Token::Indent => Token::Indent,
            Token::Dedent => Token::Dedent,
            Token::Sep => Token::Sep,
        }
    }
}

/// A token with the half-open span of byte offsets `[start, end)` that it
/// covers.
pub type Spanned = (usize, Token<Vec<u8>>, usize);

/// Why scanning or the parse of the scanned tokens failed.
#[derive(Debug, Clone, PartialEq, Eq)]
pub enum ScanError {
    /// No lexical pattern matches at this byte offset.
    BadSymbol(usize),
    /// The parser met an invalid token at this offset.
    InvalidToken(usize),
    /// The parser met a token, or the end of input where there is none, that
    /// it did not expect; the strings name what it expected.
    UnrecognizedToken(Option<Spanned>, Vec<String>),
    /// The parser met a token after the input was complete.
    ExtraToken(usize, Token<Vec<u8>>, usize),
}

/// What `error` is called in a message.
pub open spec fn scan_error_text(error: ScanError) -> Seq<char> {
    match error {
        ScanError::BadSymbol(_) => "invalid symbol"@,
        ScanError::InvalidToken(_) => "invalid token"@,
        ScanError::UnrecognizedToken(_, _) => "unrecognized token"@,
        ScanError::ExtraToken(_, _, _) => "extra token"@,
    }
}

impl ScanError {
    /// What the error is called in a message.
    pub fn describe(&self) -> (text: String)
        ensures
            text@ == scan_error_text(*self),
    {
        match self {
            ScanError::BadSymbol(_) => String::from_str("invalid symbol"),
            ScanError::InvalidToken(_) => String::from_str("invalid token"),
            ScanError::UnrecognizedToken(_, _) => String::from_str("unrecognized token"),
            ScanError::ExtraToken(_, _, _) => String::from_str("extra token"),
        }
    }
}

/// How the parser that reads the tokens fails. The offsets and tokens are
/// those that the scanner yielded.
#[derive(Debug, PartialEq, Eq)]
#[allow(inconsistent_fields)]
pub enum ParserFailure {
    /// A token that is none, at this offset.
    InvalidToken { location: usize },
    /// A token that the parser did not expect, or the end of the input where
    /// there is no token, with the names of what it expected.
    UnrecognizedToken { token: Option<Spanned>, expected: Vec<String> },
    /// A token behind the end of what the parser reads.
    ExtraToken { token: Spanned },
    /// An error that the scanner yielded in place of a token.
    User { error: ScanError },
}

/// The error of scanning that stands for a failure of the parser.
pub open spec fn failure_error(failure: ParserFailure) -> ScanError {
    match failure {
        ParserFailure::InvalidToken { location } => ScanError::InvalidToken(location),
        ParserFailure::UnrecognizedToken { token, expected } => ScanError::UnrecognizedToken(
            token,
            expected,
        ),
        ParserFailure::ExtraToken { token } => ScanError::ExtraToken(token.0, token.1, token.2),
        ParserFailure::User { error } => error,
    }
}

impl From<ParserFailure> for ScanError {
    fn from(failure: ParserFailure) -> (error: ScanError) {
        match failure {
            ParserFailure::InvalidToken { location } => ScanError::InvalidToken(location),
            ParserFailure::UnrecognizedToken { token, expected } => ScanError::UnrecognizedToken(
                token,
                expected,
            ),
            ParserFailure::ExtraToken { token } => ScanError::ExtraToken(
                token.0,
                token.1,
                token.2,
            ),
            ParserFailure::User { error } => error,
        }
    }
}

impl vstd::std_specs::convert::FromSpecImpl<ParserFailure> for ScanError {
    open spec fn obeys_from_spec() -> bool {
        true
    }

    open spec fn from_spec(failure: ParserFailure) -> ScanError {
        failure_error(failure)
    }
}

/// What one pull of the scanner yields.
pub type ScanOutput = Result<Spanned, ScanError>;

/// One item of the token stream as specifications see it.
pub enum Lexed {
    /// A token with its span.
    Tok(int, Token<Seq<u8>>, int),
    /// A byte offset at which no lexical pattern matches.
    Bad(int),
}

/// Whether the output `out` of the scanner is the item `item` of the stream.
pub open spec fn delivers(out: ScanOutput, item: Lexed) -> bool {
    match item {
        Lexed::Tok(start, token, end) => out matches Ok(spanned) && spanned.0 == start
            && spanned.1@ == token && spanned.2 == end,
        Lexed::Bad(at) => out matches Err(ScanError::BadSymbol(offset)) && offset == at,
    }
}

} // verus!
