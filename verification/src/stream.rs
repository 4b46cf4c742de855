//! What holds of every token stream.

use crate::bytes::{lemma_blank_run, lemma_blank_run_back, lemma_run_len, ByteClass};
use crate::lexer::{ends_in_bad, first_match, lemma_match_len_bounds, lex_from, token_of};
use crate::line::{joined, lemma_joined, LineView};
use crate::scanner::{
    base_stack, block_marks, closed_blocks, content_end, content_start, indent_width, is_blank,
    lemma_shifted_wf, line_items, repeat, scan_from, stack_after, stack_wf, token_stream,
};
use crate::token::{Lexed, Token};
use vstd::prelude::*;

verus! {

/// Whether `item` is the token `token`, wherever it stands.
pub open spec fn is_token(item: Lexed, token: Token<Seq<u8>>) -> bool {
    item matches Lexed::Tok(_, found, _) && found == token
}

/// How many of `items` are the token `token`.
pub open spec fn count_token(items: Seq<Lexed>, token: Token<Seq<u8>>) -> nat
    decreases items.len(),
{
    if items.len() == 0 {
        0
    } else {
        count_token(items.drop_last(), token) + (if is_token(items.last(), token) {
            1nat
        } else {
            0nat
        })
    }
}

/// One item counts once if it is the token, else not at all.
pub proof fn lemma_count_single(item: Lexed, token: Token<Seq<u8>>)
    ensures
        count_token(seq![item], token) == (if is_token(item, token) {
            1nat
        } else {
            0nat
        }),
{
    reveal_with_fuel(count_token, 2);
    assert(seq![item].drop_last() =~= Seq::<Lexed>::empty());
}

/// Counting goes through concatenation.
pub proof fn lemma_count_concat(first: Seq<Lexed>, second: Seq<Lexed>, token: Token<Seq<u8>>)
    ensures
        count_token(first + second, token) == count_token(first, token) + count_token(
            second,
            token,
        ),
    decreases second.len(),
{
    if second.len() == 0 {
        assert(first + second =~= first);
    } else {
        assert((first + second).drop_last() =~= first + second.drop_last());
        lemma_count_concat(first, second.drop_last(), token);
    }
}

/// Of `n` equal items all or none are the token.
pub proof fn lemma_count_repeat(item: Lexed, n: int, token: Token<Seq<u8>>)
    requires
        0 <= n,
    ensures
        count_token(repeat(item, n), token) == (if is_token(item, token) {
            n
        } else {
            0
        }),
    decreases n,
{
    if n > 0 {
        assert(repeat(item, n).drop_last() =~= repeat(item, n - 1));
        lemma_count_repeat(item, n - 1, token);
    }
}

/// The content of a line holds no `Indent` and no `Dedent`.
pub proof fn lemma_content_holds_no_marks(text: Seq<u8>, origin: Seq<usize>, at: int, end: int)
    ensures
        count_token(lex_from(text, origin, at, end), Token::Indent) == 0,
        count_token(lex_from(text, origin, at, end), Token::Dedent) == 0,
    decreases end - at,
{
    let items = lex_from(text, origin, at, end);
    if 0 <= at < end <= text.len() {
        match first_match(text, at, end) {
            None => {
                lemma_count_single(Lexed::Bad(origin[at] as int), Token::Indent);
                lemma_count_single(Lexed::Bad(origin[at] as int), Token::Dedent);
            },
            Some((pattern, n)) => {
                lemma_match_len_bounds(pattern, text, at, end);
                {
                    let rest = lex_from(text, origin, at + n, end);
                    lemma_content_holds_no_marks(text, origin, at + n, end);
                    match token_of(pattern, text.subrange(at, at + n)) {
                        None => {},
                        Some(token) => {
                            let item = Lexed::Tok(
                                origin[at] as int,
                                token,
                                origin[at + n - 1] + 1,
                            );
                            let head = seq![item];
                            assert(token != Token::<Seq<u8>>::Indent);
                            assert(token != Token::<Seq<u8>>::Dedent);
                            lemma_count_single(item, Token::Indent);
                            lemma_count_single(item, Token::Dedent);
                            lemma_count_concat(head, rest, Token::Indent);
                            lemma_count_concat(head, rest, Token::Dedent);
                        },
                    }
                }
            },
        }
    }
}

/// The `Indent`s of a line less its `Dedent`s are the blocks by which the
/// line deepens the stack.
pub proof fn lemma_line_balance(line: LineView, pos: int, stack: Seq<usize>)
    requires
        stack_wf(stack),
        line.text.len() <= usize::MAX,
    ensures
        stack_wf(stack_after(stack, line.text)),
        count_token(line_items(line, pos, stack), Token::Indent) + stack.len() == count_token(
            line_items(line, pos, stack),
            Token::Dedent,
        ) + stack_after(stack, line.text).len(),
{
    let items = line_items(line, pos, stack);
    if is_blank(line.text) {
        lemma_count_single(Lexed::Tok(pos, Token::Sep, pos), Token::Indent);
        lemma_count_single(Lexed::Tok(pos, Token::Sep, pos), Token::Dedent);
    } else {
        let width = indent_width(line.text);
        lemma_run_len(line.text, 0, line.text.len() as int, ByteClass::Indent);
        lemma_shifted_wf(stack, width);
        let marks = block_marks(line, pos, stack);
        let content = lex_from(
            line.text,
            line.origin,
            content_start(line.text),
            content_end(line.text),
        );
        let closing = if ends_in_bad(content) {
            Seq::<Lexed>::empty()
        } else {
            seq![Lexed::Tok(line.next, Token::Sep, line.next)]
        };
        lemma_content_holds_no_marks(
            line.text,
            line.origin,
            content_start(line.text),
            content_end(line.text),
        );
        lemma_count_single(Lexed::Tok(line.next, Token::Sep, line.next), Token::Indent);
        lemma_count_single(Lexed::Tok(line.next, Token::Sep, line.next), Token::Dedent);
        if width > stack.last() {
            let mark = Lexed::Tok(
                line.origin[0] as int,
                Token::Indent,
                line.origin[width - 1] + 1,
            );
            lemma_count_single(mark, Token::Indent);
            lemma_count_single(mark, Token::Dedent);
        } else {
            lemma_count_repeat(
                Lexed::Tok(pos, Token::Dedent, pos),
                closed_blocks(stack, width),
                Token::Indent,
            );
            lemma_count_repeat(
                Lexed::Tok(pos, Token::Dedent, pos),
                closed_blocks(stack, width),
                Token::Dedent,
            );
        }
        lemma_count_concat(marks, content, Token::Indent);
        lemma_count_concat(marks, content, Token::Dedent);
        lemma_count_concat(marks + content, closing, Token::Indent);
        lemma_count_concat(marks + content, closing, Token::Dedent);
    }
}

/// From any line on, the stream holds as many `Dedent`s as it holds
/// `Indent`s and blocks that were open before.
pub proof fn lemma_scan_balance(input: Seq<u8>, pos: int, stack: Seq<usize>)
    requires
        stack_wf(stack),
        0 <= pos <= input.len() <= usize::MAX,
    ensures
        count_token(scan_from(input, pos, stack), Token::Dedent) + 1 == count_token(
            scan_from(input, pos, stack),
            Token::Indent,
        ) + stack.len(),
    decreases input.len() - pos,
{
    if pos < input.len() {
        let line = joined(input, pos);
        lemma_joined(input, pos);
        lemma_line_balance(line, pos, stack);
        let after = stack_after(stack, line.text);
        lemma_scan_balance(input, line.next, after);
        lemma_count_concat(
            line_items(line, pos, stack),
            scan_from(input, line.next, after),
            Token::Indent,
        );
        lemma_count_concat(
            line_items(line, pos, stack),
            scan_from(input, line.next, after),
            Token::Dedent,
        );
    } else {
        let mark = Lexed::Tok(pos, Token::Dedent, pos);
        lemma_count_repeat(mark, stack.len() - 1, Token::Indent);
        lemma_count_repeat(mark, stack.len() - 1, Token::Dedent);
    }
}

/// The stream of tokens of any input holds as many `Dedent`s as `Indent`s:
/// every block that a line opens is closed before the stream ends.
pub proof fn lemma_dedents_match_indents(input: Seq<u8>)
    requires
        input.len() <= usize::MAX,
    ensures
        count_token(token_stream(input), Token::Dedent) == count_token(
            token_stream(input),
            Token::Indent,
        ),
{
    lemma_scan_balance(input, 0, base_stack());
}

/// Whether `item` lies between the offsets `low` and `high`: a token starts
/// at `low` or behind it, ends where it starts or behind that, and ends at
/// `high` or before it; an offset at which nothing matches is `low` or
/// greater, and smaller than `high`.
pub open spec fn span_within(item: Lexed, low: int, high: int) -> bool {
    match item {
        Lexed::Tok(start, _, end) => low <= start <= end <= high,
        Lexed::Bad(at) => low <= at < high,
    }
}

/// Whether every item of `items` lies between `low` and `high`.
pub open spec fn spans_within(items: Seq<Lexed>, low: int, high: int) -> bool {
    forall|k: int| 0 <= k < items.len() ==> span_within(#[trigger] items[k], low, high)
}

/// The items of the content of a line lie where the bytes of the line lie.
pub proof fn lemma_content_spans(
    text: Seq<u8>,
    origin: Seq<usize>,
    at: int,
    end: int,
    low: int,
    high: int,
)
    requires
        0 <= at <= end <= text.len(),
        text.len() == origin.len(),
        forall|k: int| 0 <= k < origin.len() ==> low <= #[trigger] origin[k] < high,
        forall|j: int, k: int| 0 <= j < k < origin.len() ==> origin[j] < origin[k],
    ensures
        spans_within(lex_from(text, origin, at, end), low, high),
    decreases end - at,
{
    if at < end {
        match first_match(text, at, end) {
            None => {},
            Some((pattern, n)) => {
                lemma_match_len_bounds(pattern, text, at, end);
                {
                    lemma_content_spans(text, origin, at + n, end, low, high);
                    if n > 1 {
                        assert(origin[at] < origin[at + n - 1]);
                    }
                }
            },
        }
    }
}

/// The items of a logical line lie between the start of the line and the
/// start of the next.
pub proof fn lemma_line_spans(input: Seq<u8>, pos: int, stack: Seq<usize>)
    requires
        0 <= pos < input.len() <= usize::MAX,
    ensures
        spans_within(line_items(joined(input, pos), pos, stack), pos, joined(input, pos).next),
{
    let line = joined(input, pos);
    lemma_joined(input, pos);
    if !is_blank(line.text) {
        let len = line.text.len() as int;
        lemma_run_len(line.text, 0, len, ByteClass::Indent);
        lemma_blank_run(line.text, 0, len);
        lemma_blank_run_back(line.text, content_start(line.text), len);
        lemma_content_spans(
            line.text,
            line.origin,
            content_start(line.text),
            content_end(line.text),
            pos,
            line.next,
        );
        let width = indent_width(line.text);
        if width > 1 {
            assert(line.origin[0] < line.origin[width - 1]);
        }
    }
}

/// The items of the input from a line on lie between the start of that line
/// and the end of the input.
pub proof fn lemma_scan_spans(input: Seq<u8>, pos: int, stack: Seq<usize>)
    requires
        0 <= pos <= input.len() <= usize::MAX,
    ensures
        spans_within(scan_from(input, pos, stack), pos, input.len() as int),
    decreases input.len() - pos,
{
    if pos < input.len() {
        let line = joined(input, pos);
        lemma_joined(input, pos);
        lemma_line_spans(input, pos, stack);
        lemma_scan_spans(input, line.next, stack_after(stack, line.text));
        let first = line_items(line, pos, stack);
        let rest = scan_from(input, line.next, stack_after(stack, line.text));
        assert forall|k: int| 0 <= k < (first + rest).len() implies span_within(
            #[trigger] (first + rest)[k],
            pos,
            input.len() as int,
        ) by {
            if k < first.len() {
                assert(span_within(first[k], pos, line.next));
            } else {
                assert(span_within(rest[k - first.len()], line.next, input.len() as int));
            }
        }
    }
}

/// Every token of the stream covers a span of the input, and every offset
/// at which nothing matches is the offset of a byte of the input.
pub proof fn lemma_spans_lie_in_the_input(input: Seq<u8>)
    requires
        input.len() <= usize::MAX,
    ensures
        spans_within(token_stream(input), 0, input.len() as int),
{
    lemma_scan_spans(input, 0, base_stack());
}

} // verus!
