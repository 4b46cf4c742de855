//! Classes of bytes and the runs of them in a text.

use vstd::prelude::*;

verus! {

pub const TAB: u8 = 9;

pub const LINE_FEED: u8 = 10;

pub const CARRIAGE_RETURN: u8 = 13;

pub const SPACE: u8 = 32;

pub const QUOTE: u8 = 34;

pub const ZERO: u8 = 48;

pub const NINE: u8 = 57;

pub const UPPER_A: u8 = 65;

pub const UPPER_Z: u8 = 90;

pub const BACKSLASH: u8 = 92;

pub const UNDERSCORE: u8 = 95;

pub const LOWER_A: u8 = 97;

pub const LOWER_Z: u8 = 122;

/// A class of bytes.
#[derive(Clone, Copy, Debug, PartialEq, Eq, Structural)]
pub enum ByteClass {
    /// Letters, digits and the underscore.
    Word,
    /// Decimal digits.
    Digit,
    /// Space, tab and line feed: the whitespace inside a line.
    Space,
    /// Space and tab: the whitespace that indents a line.
    Indent,
    /// The whitespace characters of one byte: space and the control
    /// characters from tab to carriage return.
    Blank,
    /// Every byte but the double quote.
    Unquoted,
    /// Every byte but the line feed.
    Inline,
    /// The backslash.
    Backslash,
}

/// Whether `b` is a letter of the Latin alphabet.
pub open spec fn is_letter(b: u8) -> bool {
    (UPPER_A <= b && b <= UPPER_Z) || (LOWER_A <= b && b <= LOWER_Z)
}

/// Whether `b` is a decimal digit.
pub open spec fn is_digit(b: u8) -> bool {
    ZERO <= b && b <= NINE
}

/// Whether the byte `b` belongs to `class`.
pub open spec fn in_class(class: ByteClass, b: u8) -> bool {
    match class {
        ByteClass::Word => is_letter(b) || is_digit(b) || b == UNDERSCORE,
        ByteClass::Digit => is_digit(b),
        ByteClass::Space => b == SPACE || b == TAB || b == LINE_FEED,
        ByteClass::Indent => b == SPACE || b == TAB,
        ByteClass::Blank => b == SPACE || (9 <= b && b <= 13),
        ByteClass::Unquoted => b != QUOTE,
        ByteClass::Inline => b != LINE_FEED,
        ByteClass::Backslash => b == BACKSLASH,
    }
}

/// The length of the longest run of bytes of `class` that starts at `from`
/// and stays below `end`.
pub open spec fn run_len(text: Seq<u8>, from: int, end: int, class: ByteClass) -> int
    decreases end - from,
{
    if 0 <= from < end && end <= text.len() && in_class(class, text[from]) {
        1 + run_len(text, from + 1, end, class)
    } else {
        0
    }
}

/// The length of the longest run of bytes of `class` that ends just before
/// `end` and does not reach below `from`.
pub open spec fn run_len_back(text: Seq<u8>, from: int, end: int, class: ByteClass) -> int
    decreases end - from,
{
    if 0 <= from < end && end <= text.len() && in_class(class, text[end - 1]) {
        1 + run_len_back(text, from, end - 1, class)
    } else {
        0
    }
}

/// A run is no longer than the window it lies in, every byte of it is of the
/// class, and the byte after it, if the window holds one, is not.
pub proof fn lemma_run_len(text: Seq<u8>, from: int, end: int, class: ByteClass)
    requires
        0 <= from <= end <= text.len(),
    ensures
        0 <= run_len(text, from, end, class) <= end - from,
        forall|k: int|
            from <= k < from + run_len(text, from, end, class) ==> in_class(
                class,
                #[trigger] text[k],
            ),
        from + run_len(text, from, end, class) < end ==> !in_class(
            class,
            text[from + run_len(text, from, end, class)],
        ),
    decreases end - from,
{
    if from < end && in_class(class, text[from]) {
        lemma_run_len(text, from + 1, end, class);
    }
}

/// The mirror image of `lemma_run_len` for runs read backwards.
pub proof fn lemma_run_len_back(text: Seq<u8>, from: int, end: int, class: ByteClass)
    requires
        0 <= from <= end <= text.len(),
    ensures
        0 <= run_len_back(text, from, end, class) <= end - from,
        forall|k: int|
            end - run_len_back(text, from, end, class) <= k < end ==> in_class(
                class,
                #[trigger] text[k],
            ),
        end - run_len_back(text, from, end, class) > from ==> !in_class(
            class,
            text[end - run_len_back(text, from, end, class) - 1],
        ),
    decreases end - from,
{
    if from < end && in_class(class, text[end - 1]) {
        lemma_run_len_back(text, from, end - 1, class);
    }
}

/// A run that starts inside another run of the same class ends where that one ends.
pub proof fn lemma_run_len_step(text: Seq<u8>, from: int, mid: int, end: int, class: ByteClass)
    requires
        0 <= from <= mid <= end <= text.len(),
        forall|k: int| from <= k < mid ==> in_class(class, #[trigger] text[k]),
    ensures
        run_len(text, from, end, class) == (mid - from) + run_len(text, mid, end, class),
    decreases mid - from,
{
    if from < mid {
        assert(in_class(class, text[from]));
        lemma_run_len_step(text, from + 1, mid, end, class);
    }
}

/// The mirror image of `lemma_run_len_step`.
pub proof fn lemma_run_len_back_step(
    text: Seq<u8>,
    from: int,
    mid: int,
    end: int,
    class: ByteClass,
)
    requires
        0 <= from <= mid <= end <= text.len(),
        forall|k: int| mid <= k < end ==> in_class(class, #[trigger] text[k]),
    ensures
        run_len_back(text, from, end, class) == (end - mid) + run_len_back(text, from, mid, class),
    decreases end - mid,
{
    if mid < end {
        assert(in_class(class, text[end - 1]));
        lemma_run_len_back_step(text, from, mid, end - 1, class);
    }
}

/// Tells whether the byte `b` belongs to `class`.
pub fn byte_in_class(class: ByteClass, b: u8) -> (r: bool)
    ensures
        r == in_class(class, b),
{
    match class {
        ByteClass::Word => (UPPER_A <= b && b <= UPPER_Z) || (LOWER_A <= b && b <= LOWER_Z) || (
        ZERO <= b && b <= NINE) || b == UNDERSCORE,
        ByteClass::Digit => ZERO <= b && b <= NINE,
        ByteClass::Space => b == SPACE || b == TAB || b == LINE_FEED,
        ByteClass::Indent => b == SPACE || b == TAB,
        ByteClass::Blank => b == SPACE || (9 <= b && b <= 13),
        ByteClass::Unquoted => b != QUOTE,
        ByteClass::Inline => b != LINE_FEED,
        ByteClass::Backslash => b == BACKSLASH,
    }
}

/// Measures the run of `class` that starts at `from`.
pub fn measure_run(text: &Vec<u8>, from: usize, end: usize, class: ByteClass) -> (n: usize)
    requires
        from <= end <= text@.len(),
    ensures
        n == run_len(text@, from as int, end as int, class),
        n <= end - from,
{
    let mut at: usize = from;
    while at < end && byte_in_class(class, text[at])
        invariant
            from <= at <= end <= text@.len(),
            forall|k: int| from <= k < at ==> in_class(class, #[trigger] text@[k]),
        decreases end - at,
    {
        at += 1;
    }
    proof {
        lemma_run_len_step(text@, from as int, at as int, end as int, class);
        lemma_run_len(text@, at as int, end as int, class);
    }
    at - from
}

/// Measures the run of `class` that ends just before `end`.
pub fn measure_run_back(text: &Vec<u8>, from: usize, end: usize, class: ByteClass) -> (n: usize)
    requires
        from <= end <= text@.len(),
    ensures
        n == run_len_back(text@, from as int, end as int, class),
        n <= end - from,
{
    let mut at: usize = end;
    while at > from && byte_in_class(class, text[at - 1])
        invariant
            from <= at <= end <= text@.len(),
            forall|k: int| at <= k < end ==> in_class(class, #[trigger] text@[k]),
        decreases at - from,
    {
        at -= 1;
    }
    proof {
        lemma_run_len_back_step(text@, from as int, at as int, end as int, class);
        lemma_run_len_back(text@, from as int, at as int, class);
    }
    end - at
}

/// Whether the three bytes encode a whitespace character: U+1680, one from
/// U+2000 to U+200A, U+2028, U+2029, U+202F, U+205F or U+3000.
pub open spec fn is_wide_blank(first: u8, second: u8, third: u8) -> bool {
    ||| (first == 0xE1 && second == 0x9A && third == 0x80)
    ||| (first == 0xE2 && second == 0x80 && ((0x80 <= third && third <= 0x8A) || third == 0xA8
        || third == 0xA9 || third == 0xAF))
    ||| (first == 0xE2 && second == 0x81 && third == 0x9F)
    ||| (first == 0xE3 && second == 0x80 && third == 0x80)
}

/// Whether the two bytes encode a whitespace character: U+0085 or U+00A0.
pub open spec fn is_narrow_blank(first: u8, second: u8) -> bool {
    first == 0xC2 && (second == 0x85 || second == 0xA0)
}

/// The length of the whitespace character that starts at `at` and ends
/// at `end` at the latest; 0 where none does.
pub open spec fn blank_len(text: Seq<u8>, at: int, end: int) -> int {
    if !(0 <= at < end <= text.len()) {
        0
    } else if in_class(ByteClass::Blank, text[at]) {
        1
    } else if at + 2 <= end && is_narrow_blank(text[at], text[at + 1]) {
        2
    } else if at + 3 <= end && is_wide_blank(text[at], text[at + 1], text[at + 2]) {
        3
    } else {
        0
    }
}

/// The length of the whitespace character that ends just before `end` and
/// starts at `from` at the earliest; 0 where none does.
pub open spec fn blank_len_back(text: Seq<u8>, from: int, end: int) -> int {
    if !(0 <= from < end <= text.len()) {
        0
    } else if in_class(ByteClass::Blank, text[end - 1]) {
        1
    } else if from + 2 <= end && is_narrow_blank(text[end - 2], text[end - 1]) {
        2
    } else if from + 3 <= end && is_wide_blank(text[end - 3], text[end - 2], text[end - 1]) {
        3
    } else {
        0
    }
}

/// The length of the whitespace that `text` holds from `at` on, without
/// reaching `end`.
pub open spec fn blank_run(text: Seq<u8>, at: int, end: int) -> int
    decreases end - at,
{
    let n = blank_len(text, at, end);
    if 0 < n <= end - at {
        n + blank_run(text, at + n, end)
    } else {
        0
    }
}

/// The length of the whitespace that `text` holds before `end`, without
/// reaching below `from`.
pub open spec fn blank_run_back(text: Seq<u8>, from: int, end: int) -> int
    decreases end - from,
{
    let n = blank_len_back(text, from, end);
    if 0 < n <= end - from {
        n + blank_run_back(text, from, end - n)
    } else {
        0
    }
}

/// Whitespace is no longer than the window it lies in; where it ends before
/// the window does, no whitespace character follows.
pub proof fn lemma_blank_run(text: Seq<u8>, at: int, end: int)
    requires
        0 <= at <= end <= text.len(),
    ensures
        0 <= blank_run(text, at, end) <= end - at,
        blank_len(text, at + blank_run(text, at, end), end) == 0,
    decreases end - at,
{
    let n = blank_len(text, at, end);
    if 0 < n <= end - at {
        lemma_blank_run(text, at + n, end);
    }
}

/// The mirror image of `lemma_blank_run`.
pub proof fn lemma_blank_run_back(text: Seq<u8>, from: int, end: int)
    requires
        0 <= from <= end <= text.len(),
    ensures
        0 <= blank_run_back(text, from, end) <= end - from,
        blank_len_back(text, from, end - blank_run_back(text, from, end)) == 0,
    decreases end - from,
{
    let n = blank_len_back(text, from, end);
    if 0 < n <= end - from {
        lemma_blank_run_back(text, from, end - n);
    }
}

/// Measures the whitespace character that starts at `at`.
pub fn measure_blank(text: &Vec<u8>, at: usize, end: usize) -> (n: usize)
    requires
        at <= end <= text@.len(),
    ensures
        n == blank_len(text@, at as int, end as int),
        n <= end - at,
{
    if at >= end {
        return 0;
    }
    let first: u8 = text[at];
    if byte_in_class(ByteClass::Blank, first) {
        return 1;
    }
    if end - at >= 2 {
        let second: u8 = text[at + 1];
        if first == 0xC2 && (second == 0x85 || second == 0xA0) {
            return 2;
        }
        if end - at >= 3 {
            let third: u8 = text[at + 2];
            if (first == 0xE1 && second == 0x9A && third == 0x80) || (first == 0xE2 && second
                == 0x80 && ((0x80 <= third && third <= 0x8A) || third == 0xA8 || third == 0xA9
                || third == 0xAF)) || (first == 0xE2 && second == 0x81 && third == 0x9F) || (first
                == 0xE3 && second == 0x80 && third == 0x80) {
                return 3;
            }
        }
    }
    0
}

/// Measures the whitespace character that ends just before `end`.
pub fn measure_blank_back(text: &Vec<u8>, from: usize, end: usize) -> (n: usize)
    requires
        from <= end <= text@.len(),
    ensures
        n == blank_len_back(text@, from as int, end as int),
        n <= end - from,
{
    if from >= end {
        return 0;
    }
    let third: u8 = text[end - 1];
    if byte_in_class(ByteClass::Blank, third) {
        return 1;
    }
    if end - from >= 2 {
        let second: u8 = text[end - 2];
        if second == 0xC2 && (third == 0x85 || third == 0xA0) {
            return 2;
        }
        if end - from >= 3 {
            let first: u8 = text[end - 3];
            if (first == 0xE1 && second == 0x9A && third == 0x80) || (first == 0xE2 && second
                == 0x80 && ((0x80 <= third && third <= 0x8A) || third == 0xA8 || third == 0xA9
                || third == 0xAF)) || (first == 0xE2 && second == 0x81 && third == 0x9F) || (first
                == 0xE3 && second == 0x80 && third == 0x80) {
                return 3;
            }
        }
    }
    0
}

/// Measures the whitespace that `text` holds from `from` on.
pub fn measure_blank_run(text: &Vec<u8>, from: usize, end: usize) -> (n: usize)
    requires
        from <= end <= text@.len(),
    ensures
        n == blank_run(text@, from as int, end as int),
        n <= end - from,
{
    let mut at: usize = from;
    loop
        invariant
            from <= at <= end <= text@.len(),
            blank_run(text@, from as int, end as int) == (at - from) + blank_run(
                text@,
                at as int,
                end as int,
            ),
        decreases end - at,
    {
        let n: usize = measure_blank(text, at, end);
        if n == 0 {
            return at - from;
        }
        at += n;
    }
}

/// Measures the whitespace that `text` holds before `end`.
pub fn measure_blank_run_back(text: &Vec<u8>, from: usize, end: usize) -> (n: usize)
    requires
        from <= end <= text@.len(),
    ensures
        n == blank_run_back(text@, from as int, end as int),
        n <= end - from,
{
    let mut at: usize = end;
    loop
        invariant
            from <= at <= end <= text@.len(),
            blank_run_back(text@, from as int, end as int) == (end - at) + blank_run_back(
                text@,
                from as int,
                at as int,
            ),
        decreases at - from,
    {
        let n: usize = measure_blank_back(text, from, at);
        if n == 0 {
            return end - at;
        }
        at -= n;
    }
}

/// Copies the bytes of `text` from `from` up to `end`.
pub fn copy_range(text: &Vec<u8>, from: usize, end: usize) -> (out: Vec<u8>)
    requires
        from <= end <= text@.len(),
    ensures
        out@ == text@.subrange(from as int, end as int),
{
    let mut out: Vec<u8> = Vec::new();
    let mut at: usize = from;
    while at < end
        invariant
            from <= at <= end <= text@.len(),
            out@ == text@.subrange(from as int, at as int),
        decreases end - at,
    {
        out.push(text[at]);
        at += 1;
        assert(out@ =~= text@.subrange(from as int, at as int));
    }
    out
}

/// Tells whether the bytes of `text` from `from` up to `end` are those of `word`.
pub fn lexeme_is<const N: usize>(text: &Vec<u8>, from: usize, end: usize, word: &[u8; N]) -> (r:
    bool)
    requires
        from <= end <= text@.len(),
    ensures
        r == (text@.subrange(from as int, end as int) == word@),
{
    assert(word@.len() == N);
    if end - from != N {
        return false;
    }
    let mut k: usize = 0;
    while k < N
        invariant
            from <= end <= text@.len(),
            end - from == N,
            k <= N,
            forall|j: int| 0 <= j < k ==> text@[from + j] == #[trigger] word@[j],
        decreases N - k,
    {
        if text[from + k] != word[k] {
            assert(text@.subrange(from as int, end as int)[k as int] != word@[k as int]);
            return false;
        }
        k += 1;
    }
    assert(text@.subrange(from as int, end as int) =~= word@);
    true
}

} // verus!
