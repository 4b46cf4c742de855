//! The scanner: from the bytes of a source text to its stream of tokens,
//! with the blocks that the indentation of the lines marks.

use crate::bytes::{
    blank_run, blank_run_back, lemma_blank_run, lemma_blank_run_back, lemma_run_len,
    measure_blank_run, measure_blank_run_back, measure_run, run_len, ByteClass,
};
use crate::lexer::{delivers_all, ends_in_bad, lex_from, tokenize};
use crate::line::{joined, lemma_joined, lemma_joined_next, read_line, Line, LineView};
use crate::token::{delivers, Lexed, ScanOutput, Token};
use std::collections::VecDeque;
use vstd::prelude::*;

verus! {

/// Where the content of a line starts: behind its leading whitespace.
pub open spec fn content_start(text: Seq<u8>) -> int {
    blank_run(text, 0, text.len() as int)
}

/// Where the content of a line ends: before its trailing whitespace.
pub open spec fn content_end(text: Seq<u8>) -> int {
    text.len() - blank_run_back(text, content_start(text), text.len() as int)
}

/// Whether a line holds nothing but whitespace.
pub open spec fn is_blank(text: Seq<u8>) -> bool {
    content_start(text) >= text.len()
}

/// How far a line is indented: the number of spaces and tabs it starts with.
pub open spec fn indent_width(text: Seq<u8>) -> int {
    run_len(text, 0, text.len() as int, ByteClass::Indent)
}

/// Whether `stack` is a stack of indentation widths: the base width 0 at
/// the bottom, and each entry wider than the one below.
pub open spec fn stack_wf(stack: Seq<usize>) -> bool {
    &&& stack.len() >= 1
    &&& stack[0] == 0
    &&& forall|j: int, k: int| 0 <= j < k < stack.len() ==> stack[j] < stack[k]
}

/// How many entries of `stack` stay when every entry wider than `width` is
/// popped off its top.
pub open spec fn kept_depth(stack: Seq<usize>, width: int) -> int
    decreases stack.len(),
{
    if stack.len() > 0 && stack.last() > width {
        kept_depth(stack.drop_last(), width)
    } else {
        stack.len() as int
    }
}

/// The stack after a line of indentation `width`: with `width` pushed where
/// it is wider than the top, else with all that is wider popped.
pub open spec fn shifted(stack: Seq<usize>, width: int) -> Seq<usize> {
    if stack.len() > 0 && width > stack.last() {
        stack.push(width as usize)
    } else {
        stack.take(kept_depth(stack, width))
    }
}

/// How many blocks a line of indentation `width` closes.
pub open spec fn closed_blocks(stack: Seq<usize>, width: int) -> int {
    if stack.len() > 0 && width > stack.last() {
        0
    } else {
        stack.len() - kept_depth(stack, width)
    }
}

/// Whether a line of indentation `width` may follow under `stack`: it is
/// indented as deep as the open block, or deeper, or as deep as one of the
/// blocks around it.
pub open spec fn fits(stack: Seq<usize>, width: int) -> bool {
    stack.len() > 0 && shifted(stack, width).last() == width
}

/// The stack after the line `text`. A blank line leaves it as it is.
pub open spec fn stack_after(stack: Seq<usize>, text: Seq<u8>) -> Seq<usize> {
    if is_blank(text) {
        stack
    } else {
        shifted(stack, indent_width(text))
    }
}

/// The item `item`, `n` times.
pub open spec fn repeat(item: Lexed, n: int) -> Seq<Lexed> {
    Seq::new(n as nat, |k: int| item)
}

/// The tokens that mark what the indentation of a line does to the blocks:
/// one `Indent` over the whitespace where the line opens a block, one
/// `Dedent` at `pos` for each block that it closes.
pub open spec fn block_marks(line: LineView, pos: int, stack: Seq<usize>) -> Seq<Lexed> {
    let width = indent_width(line.text);
    if stack.len() > 0 && width > stack.last() {
        seq![Lexed::Tok(line.origin[0] as int, Token::Indent, line.origin[width - 1] + 1)]
    } else {
        repeat(Lexed::Tok(pos, Token::Dedent, pos), closed_blocks(stack, width))
    }
}

/// The items of one logical line that starts at `pos` under `stack`. A blank
/// line gives one `Sep`. Any other line gives the marks of its indentation,
/// the items of its content and, unless these end in an offset at which
/// nothing matches, a `Sep` where the next line starts.
pub open spec fn line_items(line: LineView, pos: int, stack: Seq<usize>) -> Seq<Lexed> {
    if is_blank(line.text) {
        seq![Lexed::Tok(pos, Token::Sep, pos)]
    } else {
        let content = lex_from(
            line.text,
            line.origin,
            content_start(line.text),
            content_end(line.text),
        );
        block_marks(line, pos, stack) + content + (if ends_in_bad(content) {
            Seq::empty()
        } else {
            seq![Lexed::Tok(line.next, Token::Sep, line.next)]
        })
    }
}

/// The items of the input from `pos` on, under `stack`: those of each
/// logical line in turn and, at the end of the input, one `Dedent` for each
/// block that is still open.
pub open spec fn scan_from(input: Seq<u8>, pos: int, stack: Seq<usize>) -> Seq<Lexed>
    decreases input.len() - pos,
{
    if !(0 <= pos < input.len()) {
        repeat(Lexed::Tok(pos, Token::Dedent, pos), stack.len() - 1)
    } else {
        proof {
            lemma_joined_next(input, pos);
        }
        let line = joined(input, pos);
        line_items(line, pos, stack) + scan_from(input, line.next, stack_after(stack, line.text))
    }
}

/// Whether the indentation of every line from `pos` on fits the blocks
/// that are open where the line stands.
pub open spec fn fits_from(input: Seq<u8>, pos: int, stack: Seq<usize>) -> bool
    decreases input.len() - pos,
{
    if !(0 <= pos < input.len()) {
        true
    } else {
        proof {
            lemma_joined_next(input, pos);
        }
        let line = joined(input, pos);
        &&& is_blank(line.text) || fits(stack, indent_width(line.text))
        &&& fits_from(input, line.next, stack_after(stack, line.text))
    }
}

/// The stack before the first line: the base width alone.
pub open spec fn base_stack() -> Seq<usize> {
    seq![0usize]
}

/// The stream of tokens of `input`.
pub open spec fn token_stream(input: Seq<u8>) -> Seq<Lexed> {
    scan_from(input, 0, base_stack())
}

/// Whether `input` is indented consistently: no line is indented less than
/// the open block without being indented as one of the blocks around it.
pub open spec fn well_indented(input: Seq<u8>) -> bool {
    fits_from(input, 0, base_stack())
}

/// Popping leaves at least the base width, keeps a stack of widths one, and
/// what stays is no wider than `width`.
pub proof fn lemma_kept_depth(stack: Seq<usize>, width: int)
    requires
        stack_wf(stack),
        0 <= width,
    ensures
        1 <= kept_depth(stack, width) <= stack.len(),
        stack[kept_depth(stack, width) - 1] <= width,
        forall|k: int| kept_depth(stack, width) <= k < stack.len() ==> stack[k] > width,
    decreases stack.len(),
{
    if stack.last() > width {
        let below = stack.drop_last();
        assert(stack.len() > 1);
        assert(stack_wf(below));
        lemma_kept_depth(below, width);
        assert forall|k: int| kept_depth(stack, width) <= k < stack.len() implies stack[k]
            > width by {
            if k < below.len() {
                assert(below[k] == stack[k]);
            }
        }
    }
}

/// A line leaves a stack of widths behind.
pub proof fn lemma_shifted_wf(stack: Seq<usize>, width: int)
    requires
        stack_wf(stack),
        0 <= width <= usize::MAX,
    ensures
        stack_wf(shifted(stack, width)),
        shifted(stack, width).len() + closed_blocks(stack, width) == stack.len() + (if width
            > stack.last() {
            1int
        } else {
            0int
        }),
        closed_blocks(stack, width) >= 0,
{
    lemma_kept_depth(stack, width);
}

/// Brings `indents` to the indentation `width` of a new line and returns the
/// number of blocks that the line closes.
pub fn settle(indents: &mut Vec<usize>, width: usize) -> (closed: usize)
    requires
        stack_wf(old(indents)@),
    ensures
        final(indents)@ == shifted(old(indents)@, width as int),
        closed == closed_blocks(old(indents)@, width as int),
        stack_wf(final(indents)@),
{
    proof {
        lemma_shifted_wf(indents@, width as int);
        lemma_kept_depth(indents@, width as int);
        assert(indents@.len() == indents.len());
    }
    if width > indents[indents.len() - 1] {
        indents.push(width);
        return 0;
    }
    let mut closed: usize = 0;
    while indents[indents.len() - 1] > width
        invariant
            stack_wf(indents@),
            old(indents)@.len() <= usize::MAX,
            indents@.len() + closed == old(indents)@.len(),
            indents@ == old(indents)@.take(indents@.len() as int),
            kept_depth(indents@, width as int) == kept_depth(old(indents)@, width as int),
        decreases indents@.len(),
    {
        let ghost before = indents@;
        indents.pop();
        closed += 1;
        proof {
            assert(indents@ =~= before.drop_last());
            assert(indents@ =~= old(indents)@.take(indents@.len() as int));
        }
    }
    proof {
        assert(indents@ =~= old(indents)@.take(kept_depth(old(indents)@, width as int)));
    }
    closed
}

/// Tells whether `input` is indented consistently.
pub fn is_well_indented(input: &Vec<u8>) -> (ok: bool)
    ensures
        ok == well_indented(input@),
{
    let mut indents: Vec<usize> = Vec::new();
    indents.push(0);
    let mut pos: usize = 0;
    assert(indents@ =~= base_stack());
    while pos < input.len()
        invariant
            pos <= input@.len(),
            stack_wf(indents@),
            well_indented(input@) == fits_from(input@, pos as int, indents@),
        decreases input@.len() - pos,
    {
        let line: Line = read_line(input, pos);
        proof {
            assert(input@.len() == input.len());
            lemma_joined(input@, pos as int);
        }
        let len: usize = line.text.len();
        let start: usize = measure_blank_run(&line.text, 0, len);
        if start < len {
            let width: usize = measure_run(&line.text, 0, len, ByteClass::Indent);
            settle(&mut indents, width);
            if indents[indents.len() - 1] != width {
                return false;
            }
        }
        pos = line.next;
    }
    true
}

/// Reads a source text as a stream of tokens, one pull at a time.
pub struct Scanner {
    input: Vec<u8>,
    queue: VecDeque<ScanOutput>,
    indents: Vec<usize>,
    pos: usize,
    pending: Ghost<Seq<Lexed>>,
}

impl Scanner {
    /// The invariant of the scanner.
    pub closed spec fn wf(&self) -> bool {
        &&& self.pos <= self.input@.len()
        &&& stack_wf(self.indents@)
        &&& delivers_all(self.queue@, self.pending@)
        &&& fits_from(self.input@, self.pos as int, self.indents@)
    }

    /// The bytes that the scanner reads.
    pub closed spec fn source(&self) -> Seq<u8> {
        self.input@
    }

    /// The items that the scanner has yet to yield.
    pub closed spec fn remaining(&self) -> Seq<Lexed> {
        self.pending@ + scan_from(self.input@, self.pos as int, self.indents@)
    }

    /// A scanner at the start of `input`.
    pub fn new(input: Vec<u8>) -> (scanner: Scanner)
        requires
            well_indented(input@),
        ensures
            scanner.wf(),
            scanner.source() == input@,
            scanner.remaining() == token_stream(input@),
    {
        let mut indents: Vec<usize> = Vec::new();
        indents.push(0);
        let scanner = Scanner {
            input,
            queue: VecDeque::new(),
            indents,
            pos: 0,
            pending: Ghost(Seq::empty()),
        };
        proof {
            assert(scanner.indents@ =~= base_stack());
            assert(scanner.remaining() =~= token_stream(scanner.input@));
        }
        scanner
    }

    /// A scanner at the start of `input`, if `input` is indented consistently.
    pub fn try_new(input: Vec<u8>) -> (made: Option<Scanner>)
        ensures
            made.is_some() == well_indented(input@),
            made matches Some(scanner) ==> scanner.wf() && scanner.source() == input@
                && scanner.remaining() == token_stream(input@),
    {
        if is_well_indented(&input) {
            Some(Scanner::new(input))
        } else {
            None
        }
    }

    /// Appends `item` to the queue.
    fn enqueue(&mut self, out: ScanOutput, Ghost(item): Ghost<Lexed>)
        requires
            delivers_all(old(self).queue@, old(self).pending@),
            delivers(out, item),
        ensures
            delivers_all(final(self).queue@, final(self).pending@),
            final(self).pending@ == old(self).pending@.push(item),
            final(self).input == old(self).input,
            final(self).indents == old(self).indents,
            final(self).pos == old(self).pos,
    {
        self.queue.push_back(out);
        proof {
            self.pending@ = self.pending@.push(item);
        }
    }

    /// Reads the logical line at the position of the scanner into the queue.
    fn scan_line(&mut self)
        requires
            old(self).wf(),
            old(self).pos < old(self).input@.len(),
            old(self).pending@.len() == 0,
        ensures
            final(self).wf(),
            final(self).input@ == old(self).input@,
            final(self).remaining() == old(self).remaining(),
            final(self).pending@.len() > 0,
    {
        let ghost input = self.input@;
        let ghost pos = self.pos as int;
        let ghost stack = self.indents@;
        let line: Line = read_line(&self.input, self.pos);
        let ghost view = line@;
        proof {
            assert(input.len() == self.input.len());
            lemma_joined(input, pos);
            assert(self.pending@ =~= Seq::empty());
        }
        let len: usize = line.text.len();
        let start: usize = measure_blank_run(&line.text, 0, len);
        if start >= len {
            let here: usize = self.pos;
            self.enqueue(Ok((here, Token::Sep, here)), Ghost(Lexed::Tok(pos, Token::Sep, pos)));
            proof {
                assert(self.pending@ =~= line_items(view, pos, stack));
            }
        } else {
            proof {
                lemma_blank_run(view.text, 0, len as int);
                lemma_blank_run_back(view.text, start as int, len as int);
                lemma_run_len(view.text, 0, len as int, ByteClass::Indent);
            }
            let end: usize = len - measure_blank_run_back(&line.text, start, len);
            let width: usize = measure_run(&line.text, 0, len, ByteClass::Indent);
            let opens: bool = width > self.indents[self.indents.len() - 1];
            let closed: usize = settle(&mut self.indents, width);
            if opens {
                let from: usize = line.origin[0];
                let to: usize = line.origin[width - 1] + 1;
                self.enqueue(
                    Ok((from, Token::Indent, to)),
                    Ghost(Lexed::Tok(from as int, Token::Indent, to as int)),
                );
            } else {
                let here: usize = self.pos;
                let mut k: usize = 0;
                proof {
                    assert(self.pending@ =~= repeat(Lexed::Tok(pos, Token::Dedent, pos), 0));
                }
                while k < closed
                    invariant
                        k <= closed,
                        here == pos,
                        delivers_all(self.queue@, self.pending@),
                        self.pending@ == repeat(Lexed::Tok(pos, Token::Dedent, pos), k as int),
                        self.input@ == input,
                        self.pos == pos,
                        self.indents@ == shifted(stack, width as int),
                    decreases closed - k,
                {
                    self.enqueue(
                        Ok((here, Token::Dedent, here)),
                        Ghost(Lexed::Tok(pos, Token::Dedent, pos)),
                    );
                    k += 1;
                    proof {
                        assert(self.pending@ =~= repeat(
                            Lexed::Tok(pos, Token::Dedent, pos),
                            k as int,
                        ));
                    }
                }
            }
            proof {
                assert(self.pending@ =~= block_marks(view, pos, stack));
            }
            let ghost marks = self.pending@;
            let ghost content = lex_from(view.text, view.origin, start as int, end as int);
            let ghost queued = self.queue@;
            let complete: bool = tokenize(&line.text, &line.origin, start, end, &mut self.queue);
            proof {
                self.pending@ = marks + content;
                assert forall|k: int| 0 <= k < self.queue@.len() implies delivers(
                    #[trigger] self.queue@[k],
                    self.pending@[k],
                ) by {
                    if k < queued.len() {
                        assert(self.queue@[k] == self.queue@.take(queued.len() as int)[k]);
                    } else {
                        assert(self.queue@[k] == self.queue@.skip(queued.len() as int)[k
                            - queued.len()]);
                    }
                }
            }
            if complete {
                let next: usize = line.next;
                self.enqueue(
                    Ok((next, Token::Sep, next)),
                    Ghost(Lexed::Tok(next as int, Token::Sep, next as int)),
                );
            }
            proof {
                assert(self.pending@ =~= line_items(view, pos, stack));
            }
        }
        self.pos = line.next;
        proof {
            assert(self.indents@ == stack_after(stack, view.text));
            assert(self.pending@ + scan_from(input, view.next, self.indents@) =~= Seq::<
                Lexed,
            >::empty() + scan_from(input, pos, stack));
        }
    }

    /// The next item of the stream, or `None` when the stream has ended.
    pub fn next(&mut self) -> (out: Option<ScanOutput>)
        requires
            old(self).wf(),
        ensures
            final(self).wf(),
            final(self).source() == old(self).source(),
            match out {
                Some(item) => old(self).remaining().len() > 0 && delivers(
                    item,
                    old(self).remaining()[0],
                ) && final(self).remaining() == old(self).remaining().skip(1),
                None => old(self).remaining().len() == 0 && final(self).remaining().len() == 0,
            },
    {
        if self.queue.len() == 0 {
            if self.pos < self.input.len() {
                self.scan_line();
            } else if self.indents.len() > 1 {
                let ghost stack = self.indents@;
                let here: usize = self.pos;
                self.indents.pop();
                proof {
                    let mark = Lexed::Tok(here as int, Token::Dedent, here as int);
                    assert(self.indents@ =~= stack.drop_last());
                    assert(old(self).remaining() =~= repeat(mark, stack.len() - 1));
                    assert(self.remaining() =~= repeat(mark, stack.len() - 2));
                    assert(self.remaining() =~= old(self).remaining().skip(1));
                }
                return Some(Ok((here, Token::Dedent, here)));
            } else {
                return None;
            }
        }
        let ghost before = self.pending@;
        let ghost ahead = scan_from(self.input@, self.pos as int, self.indents@);
        let out = self.queue.pop_front();
        proof {
            self.pending@ = before.skip(1);
            assert(before + ahead =~= old(self).remaining());
            assert(self.remaining() =~= old(self).remaining().skip(1));
        }
        out
    }
}

} // verus!
