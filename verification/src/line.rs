//! Logical lines: physical lines of the input, joined where one ends in a
//! backslash before its line break.

use crate::bytes::{
    lemma_run_len, lemma_run_len_back, measure_run, measure_run_back, run_len, run_len_back,
    ByteClass, BACKSLASH, CARRIAGE_RETURN, LINE_FEED,
};
use vstd::prelude::*;

verus! {

/// A logical line, read from the input.
pub struct Line {
    /// The bytes of the line, the continuations taken out.
    pub text: Vec<u8>,
    /// For each byte of `text`, the offset in the input at which it stands.
    pub origin: Vec<usize>,
    /// The offset in the input at which the next line starts.
    pub next: usize,
}

/// A logical line as specifications see it.
pub struct LineView {
    pub text: Seq<u8>,
    pub origin: Seq<usize>,
    pub next: int,
}

impl View for Line {
    type V = LineView;

    open spec fn view(&self) -> LineView {
        LineView { text: self.text@, origin: self.origin@, next: self.next as int }
    }
}

/// The offsets from `start` up to `end`, in order.
pub open spec fn offsets(start: int, end: int) -> Seq<usize> {
    Seq::new((end - start) as nat, |k: int| (start + k) as usize)
}

/// Where the physical line that starts at `start` ends: behind its line
/// feed, or at the end of the input.
pub open spec fn line_end(input: Seq<u8>, start: int) -> int {
    let run = run_len(input, start, input.len() as int, ByteClass::Inline);
    if start + run < input.len() {
        start + run + 1
    } else {
        input.len() as int
    }
}

/// Whether the physical line from `start` up to `end` ends in a backslash and
/// a line break, so that the next line continues it.
pub open spec fn is_continued(input: Seq<u8>, start: int, end: int) -> bool {
    &&& 0 <= start && start + 2 <= end && end <= input.len()
    &&& input[end - 1] == LINE_FEED
    &&& (input[end - 2] == BACKSLASH || (start + 3 <= end && input[end - 2] == CARRIAGE_RETURN
        && input[end - 3] == BACKSLASH))
}

/// Where that of a continued line ends which the logical line keeps: before
/// the line break and all the backslashes that stand before it.
pub open spec fn kept_end(input: Seq<u8>, start: int, end: int) -> int {
    let bare = if input[end - 2] == BACKSLASH {
        end - 1
    } else {
        end - 2
    };
    bare - run_len_back(input, start, bare, ByteClass::Backslash)
}

/// The logical line that starts at `start`: the physical line there, and,
/// as long as the last one read is continued and input is left, the next.
pub open spec fn joined(input: Seq<u8>, start: int) -> LineView
    decreases input.len() - start,
{
    if !(0 <= start < input.len()) {
        LineView { text: Seq::empty(), origin: Seq::empty(), next: input.len() as int }
    } else {
        let end = line_end(input, start);
        if is_continued(input, start, end) {
            let rest = joined(input, end);
            LineView {
                text: input.subrange(start, kept_end(input, start, end)) + rest.text,
                origin: offsets(start, kept_end(input, start, end)) + rest.origin,
                next: rest.next,
            }
        } else {
            LineView { text: input.subrange(start, end), origin: offsets(start, end), next: end }
        }
    }
}

/// A physical line is not empty and ends within the input.
pub proof fn lemma_line_end(input: Seq<u8>, start: int)
    requires
        0 <= start < input.len(),
    ensures
        start < line_end(input, start) <= input.len(),
{
    lemma_run_len(input, start, input.len() as int, ByteClass::Inline);
}

/// What a continued line keeps lies within it.
pub proof fn lemma_kept_end(input: Seq<u8>, start: int, end: int)
    requires
        is_continued(input, start, end),
    ensures
        start <= kept_end(input, start, end) < end,
{
    let bare = if input[end - 2] == BACKSLASH {
        end - 1
    } else {
        end - 2
    };
    lemma_run_len_back(input, start, bare, ByteClass::Backslash);
}

/// A logical line is not empty and ends within the input.
pub proof fn lemma_joined_next(input: Seq<u8>, start: int)
    requires
        0 <= start < input.len(),
    ensures
        start < joined(input, start).next <= input.len(),
    decreases input.len() - start,
{
    let end = line_end(input, start);
    lemma_line_end(input, start);
    if is_continued(input, start, end) {
        if end < input.len() {
            lemma_joined_next(input, end);
        } else {
            assert(joined(input, end).next == input.len());
        }
    }
}

/// A logical line has one offset for each of its bytes; the offsets rise,
/// lie between the start of the line and the start of the next, and each
/// names the place in the input where the byte stands.
pub proof fn lemma_joined(input: Seq<u8>, start: int)
    requires
        0 <= start < input.len() <= usize::MAX,
    ensures
        joined(input, start).text.len() == joined(input, start).origin.len(),
        joined(input, start).text.len() <= joined(input, start).next - start,
        start < joined(input, start).next <= input.len(),
        forall|k: int|
            0 <= k < joined(input, start).origin.len() ==> start <= #[trigger] joined(
                input,
                start,
            ).origin[k] < joined(input, start).next,
        forall|k: int|
            0 <= k < joined(input, start).origin.len() ==> input[joined(
                input,
                start,
            ).origin[k] as int] == #[trigger] joined(input, start).text[k],
        forall|j: int, k: int|
            0 <= j < k < joined(input, start).origin.len() ==> joined(input, start).origin[j]
                < joined(input, start).origin[k],
    decreases input.len() - start,
{
    let end = line_end(input, start);
    lemma_line_end(input, start);
    if is_continued(input, start, end) {
        lemma_kept_end(input, start, end);
        let keep = kept_end(input, start, end);
        let head = offsets(start, keep);
        let line = joined(input, start);
        if end < input.len() {
            lemma_joined(input, end);
        }
        let rest = joined(input, end);
        assert forall|k: int| 0 <= k < line.origin.len() implies start <= #[trigger] line.origin[k]
            < line.next && input[line.origin[k] as int] == line.text[k] by {
            if k >= head.len() {
                assert(line.origin[k] == rest.origin[k - head.len()]);
                assert(line.text[k] == rest.text[k - head.len()]);
            }
        }
        assert forall|j: int, k: int| 0 <= j < k < line.origin.len() implies line.origin[j]
            < line.origin[k] by {
            if k >= head.len() {
                assert(line.origin[k] == rest.origin[k - head.len()]);
                if j >= head.len() {
                    assert(line.origin[j] == rest.origin[j - head.len()]);
                }
            }
        }
    }
}

/// Appends the bytes of `input` from `from` up to `end` to `text`, and their
/// offsets to `origin`.
pub fn append_range(
    input: &Vec<u8>,
    from: usize,
    end: usize,
    text: &mut Vec<u8>,
    origin: &mut Vec<usize>,
)
    requires
        from <= end <= input@.len(),
    ensures
        final(text)@ == old(text)@ + input@.subrange(from as int, end as int),
        final(origin)@ == old(origin)@ + offsets(from as int, end as int),
{
    let mut at: usize = from;
    assert(text@ =~= old(text)@ + input@.subrange(from as int, at as int));
    assert(origin@ =~= old(origin)@ + offsets(from as int, at as int));
    while at < end
        invariant
            from <= at <= end <= input@.len(),
            text@ == old(text)@ + input@.subrange(from as int, at as int),
            origin@ == old(origin)@ + offsets(from as int, at as int),
        decreases end - at,
    {
        text.push(input[at]);
        origin.push(at);
        at += 1;
        assert(text@ =~= old(text)@ + input@.subrange(from as int, at as int));
        assert(origin@ =~= old(origin)@ + offsets(from as int, at as int));
    }
}

/// Reads the logical line that starts at `start`.
pub fn read_line(input: &Vec<u8>, start: usize) -> (line: Line)
    requires
        start < input@.len(),
    ensures
        line@ == joined(input@, start as int),
{
    let total: usize = input.len();
    let mut text: Vec<u8> = Vec::new();
    let mut origin: Vec<usize> = Vec::new();
    let mut at: usize = start;
    let ghost whole = joined(input@, start as int);
    assert(whole.text =~= text@ + joined(input@, at as int).text);
    assert(whole.origin =~= origin@ + joined(input@, at as int).origin);
    while at < total
        invariant
            start <= at <= total,
            total == input@.len(),
            whole == joined(input@, start as int),
            whole.text == text@ + joined(input@, at as int).text,
            whole.origin == origin@ + joined(input@, at as int).origin,
            whole.next == joined(input@, at as int).next,
        decreases total - at,
    {
        let ghost rest = joined(input@, at as int);
        let ghost seen_text = text@;
        let ghost seen_origin = origin@;
        proof {
            lemma_line_end(input@, at as int);
        }
        let run: usize = measure_run(input, at, total, ByteClass::Inline);
        let end: usize = if at + run < total {
            at + run + 1
        } else {
            total
        };
        let continued: bool = end - at >= 2 && input[end - 1] == LINE_FEED && (input[end - 2]
            == BACKSLASH || (end - at >= 3 && input[end - 2] == CARRIAGE_RETURN && input[end - 3]
            == BACKSLASH));
        if continued {
            let bare: usize = if input[end - 2] == BACKSLASH {
                end - 1
            } else {
                end - 2
            };
            let keep: usize = bare - measure_run_back(input, at, bare, ByteClass::Backslash);
            append_range(input, at, keep, &mut text, &mut origin);
            proof {
                let tail = joined(input@, end as int);
                assert(text@ + tail.text =~= seen_text + rest.text);
                assert(origin@ + tail.origin =~= seen_origin + rest.origin);
            }
            at = end;
        } else {
            append_range(input, at, end, &mut text, &mut origin);
            return Line { text, origin, next: end };
        }
    }
    proof {
        assert(whole.text =~= text@);
        assert(whole.origin =~= origin@);
    }
    Line { text, origin, next: total }
}

} // verus!
