//! The mathematical model of a text: a sequence of bytes in which the byte
//! 10 ends a line. Every contract on line-aligned data is stated over the
//! functions of this module.

use vstd::prelude::*;

verus! {

/// The byte that ends a line.
pub const LINE_BREAK: u8 = 10;

/// The index of the first line break of `text` at or after `from`, or the
/// length of `text` where there is none.
pub open spec fn next_break(text: Seq<u8>, from: int) -> int
    decreases text.len() - from,
{
    if from >= text.len() {
        text.len() as int
    } else if text[from] == LINE_BREAK {
        from
    } else {
        next_break(text, from + 1)
    }
}

/// True when `text` holds a line break somewhere.
pub open spec fn has_break(text: Seq<u8>) -> bool {
    next_break(text, 0) < text.len()
}

/// True when no byte of `line` is a line break.
pub open spec fn unbroken(line: Seq<u8>) -> bool {
    forall|j: int| 0 <= j < line.len() ==> line[j] != LINE_BREAK
}

/// The lines of `text` from `from` on that end in a line break, in order and
/// without their line breaks.
pub open spec fn complete_lines(text: Seq<u8>, from: int) -> Seq<Seq<u8>>
    decreases text.len() - from,
{
    let stop = next_break(text, from);
    if from < 0 || stop >= text.len() {
        Seq::empty()
    } else {
        proof {
            lemma_next_break_bounds(text, from);
        }
        seq![text.subrange(from, stop)] + complete_lines(text, stop + 1)
    }
}

/// The bytes taken by the first `n` lines of `lines`, each counted with the
/// line break that follows it.
pub open spec fn span(lines: Seq<Seq<u8>>, n: int) -> int
    decreases n,
{
    if n <= 0 {
        0
    } else {
        span(lines, n - 1) + lines[n - 1].len() + 1
    }
}

/// The bytes taken by all of `lines` with their line breaks.
pub open spec fn total_span(lines: Seq<Seq<u8>>) -> int {
    span(lines, lines.len() as int)
}

/// The number of bytes in the first `n` of `lines`, line breaks not
/// counted.
pub open spec fn byte_count(lines: Seq<Seq<u8>>, n: int) -> int
    decreases n,
{
    if n <= 0 {
        0
    } else {
        byte_count(lines, n - 1) + lines[n - 1].len()
    }
}

/// Lines with their line breaks take their bytes and one byte more for
/// each line.
pub proof fn lemma_span_counts(lines: Seq<Seq<u8>>, n: int)
    requires
        0 <= n <= lines.len(),
    ensures
        span(lines, n) == byte_count(lines, n) + n,
    decreases n,
{
    if n > 0 {
        lemma_span_counts(lines, n - 1);
    }
}

pub proof fn lemma_next_break_bounds(text: Seq<u8>, from: int)
    requires
        0 <= from <= text.len(),
    ensures
        from <= next_break(text, from) <= text.len(),
        next_break(text, from) < text.len() ==> text[next_break(text, from)] == LINE_BREAK,
        forall|j: int| from <= j < next_break(text, from) ==> text[j] != LINE_BREAK,
    decreases text.len() - from,
{
    if from < text.len() && text[from] != LINE_BREAK {
        lemma_next_break_bounds(text, from + 1);
    }
}

/// A position with no line break before it, from `from` on, and a line break
/// at it (or the end of the text) is the next break.
pub proof fn lemma_next_break_is(text: Seq<u8>, from: int, stop: int)
    requires
        0 <= from <= stop <= text.len(),
        forall|j: int| from <= j < stop ==> text[j] != LINE_BREAK,
        stop < text.len() ==> text[stop] == LINE_BREAK,
    ensures
        next_break(text, from) == stop,
    decreases stop - from,
{
    if from < stop {
        lemma_next_break_is(text, from + 1, stop);
    }
}

pub proof fn lemma_span_monotone(lines: Seq<Seq<u8>>, i: int, j: int)
    requires
        0 <= i <= j,
    ensures
        span(lines, i) + (j - i) <= span(lines, j),
        0 <= span(lines, i),
    decreases j,
{
    if i < j {
        lemma_span_monotone(lines, i, j - 1);
    } else if i > 0 {
        lemma_span_monotone(lines, i - 1, i - 1);
    }
}

/// The span of the first `n` lines depends on those lines only.
pub proof fn lemma_span_prefix(a: Seq<Seq<u8>>, b: Seq<Seq<u8>>, n: int)
    requires
        0 <= n <= a.len(),
        n <= b.len(),
        forall|k: int| 0 <= k < n ==> a[k] == b[k],
    ensures
        span(a, n) == span(b, n),
    decreases n,
{
    if n > 0 {
        lemma_span_prefix(a, b, n - 1);
    }
}

pub proof fn lemma_span_concat(a: Seq<Seq<u8>>, b: Seq<Seq<u8>>, n: int)
    requires
        0 <= n <= b.len(),
    ensures
        span(a + b, a.len() + n) == total_span(a) + span(b, n),
    decreases n,
{
    if n > 0 {
        lemma_span_concat(a, b, n - 1);
        assert((a + b)[a.len() + n - 1] == b[n - 1]);
    } else {
        lemma_span_prefix(a + b, a, a.len() as int);
    }
}

/// Every complete line is free of line breaks, and the lines with their
/// breaks fill the text from `from` up to the byte after its last break.
pub proof fn lemma_complete_lines(text: Seq<u8>, from: int)
    requires
        0 <= from <= text.len(),
    ensures
        forall|k: int|
            0 <= k < complete_lines(text, from).len() ==> unbroken(
                #[trigger] complete_lines(text, from)[k],
            ),
        from + total_span(complete_lines(text, from)) <= text.len(),
        next_break(text, from + total_span(complete_lines(text, from))) == text.len(),
        complete_lines(text, from).len() > 0 ==> text[from + total_span(
            complete_lines(text, from),
        ) - 1] == LINE_BREAK,
        complete_lines(text, from).len() == 0 <==> total_span(complete_lines(text, from)) == 0,
        total_span(complete_lines(text, from)) >= 0,
    decreases text.len() - from,
{
    lemma_next_break_bounds(text, from);
    let stop = next_break(text, from);
    if stop < text.len() {
        lemma_complete_lines(text, stop + 1);
        let head = seq![text.subrange(from, stop)];
        let rest = complete_lines(text, stop + 1);
        assert(complete_lines(text, from) == head + rest);
        lemma_span_concat(head, rest, rest.len() as int);
        lemma_span_monotone(rest, 0, rest.len() as int);
        assert(span(head, 1) == span(head, 0) + head[0].len() + 1);
        assert forall|k: int| 0 <= k < (head + rest).len() implies unbroken(
            #[trigger] (head + rest)[k],
        ) by {
            if k > 0 {
                assert((head + rest)[k] == rest[k - 1]);
            }
        }
    }
}

/// True when a line of `file` starts at `offset`: at the start of the file
/// or right after a line break.
pub open spec fn is_line_start(file: Seq<u8>, offset: int) -> bool {
    0 <= offset <= file.len() && (offset == 0 || file[offset - 1] == LINE_BREAK)
}

/// The line of `file` that starts at `offset`, without its line break.
pub open spec fn line_from(file: Seq<u8>, offset: int) -> Seq<u8> {
    file.subrange(offset, next_break(file, offset))
}

/// The start of the line of `file` that holds the byte at `position`.
pub open spec fn line_start_of(file: Seq<u8>, position: int) -> int
    decreases position,
{
    if position <= 0 {
        0
    } else if file[position - 1] == LINE_BREAK {
        position
    } else {
        line_start_of(file, position - 1)
    }
}

/// The start of the last line of `file`, the line break that may end the
/// file being part of that line.
pub open spec fn tail_start(file: Seq<u8>) -> int {
    if file.len() == 0 {
        0
    } else {
        line_start_of(file, file.len() - 1)
    }
}

/// The last line of `file` without the line break that may end it.
pub open spec fn tail_body(file: Seq<u8>) -> Seq<u8> {
    let tail = file.subrange(tail_start(file), file.len() as int);
    if tail.len() > 0 && tail.last() == LINE_BREAK {
        tail.drop_last()
    } else {
        tail
    }
}

/// Up to `line_count` lines of `file` from `offset` on, the last line of
/// the file without its line break being the last of them.
pub open spec fn file_lines(file: Seq<u8>, offset: int, line_count: nat) -> Seq<Seq<u8>>
    decreases line_count,
{
    if line_count == 0 {
        Seq::empty()
    } else if offset >= tail_start(file) {
        seq![tail_body(file)]
    } else {
        seq![line_from(file, offset)] + file_lines(
            file,
            next_break(file, offset) + 1,
            (line_count - 1) as nat,
        )
    }
}

/// The bytes of `file` from `offset` to the start of the line `line_count`
/// lines below, or to the start of the last line where that comes first.
pub open spec fn file_distance_below(file: Seq<u8>, offset: int, line_count: nat) -> int
    decreases line_count,
{
    if line_count == 0 || offset >= tail_start(file) {
        0
    } else {
        next_break(file, offset) + 1 - offset + file_distance_below(
            file,
            next_break(file, offset) + 1,
            (line_count - 1) as nat,
        )
    }
}

/// A line start with no line break between it and `position` is the start
/// of the line that holds `position`.
pub proof fn lemma_line_start_of_is(file: Seq<u8>, start: int, position: int)
    requires
        is_line_start(file, start),
        start <= position <= file.len(),
        forall|j: int| start <= j < position ==> file[j] != LINE_BREAK,
    ensures
        line_start_of(file, position) == start,
    decreases position - start,
{
    if position > start {
        lemma_line_start_of_is(file, start, position - 1);
    }
}

/// Line `i` of the complete lines of `text` from `from` on stands in `text`
/// where the spans of the lines before it put it, and a line break follows
/// it.
pub proof fn lemma_complete_line_in_place(text: Seq<u8>, from: int, i: int)
    requires
        0 <= from <= text.len(),
        0 <= i < complete_lines(text, from).len(),
    ensures
        ({
            let lines = complete_lines(text, from);
            let start = from + span(lines, i);
            &&& from <= start
            &&& next_break(text, start) == start + lines[i].len()
            &&& next_break(text, start) < text.len()
            &&& lines[i] == text.subrange(start, next_break(text, start))
            &&& start + lines[i].len() + 1 == from + span(lines, i + 1)
        }),
    decreases i,
{
    lemma_next_break_bounds(text, from);
    let stop = next_break(text, from);
    let lines = complete_lines(text, from);
    let rest = complete_lines(text, stop + 1);
    assert(lines == seq![text.subrange(from, stop)] + rest);
    if i > 0 {
        lemma_complete_line_in_place(text, stop + 1, i - 1);
        lemma_span_shift(text.subrange(from, stop), rest, i - 1);
        lemma_span_shift(text.subrange(from, stop), rest, i);
        assert(lines[i] == rest[i - 1]);
    } else {
        assert(span(lines, 1) == span(lines, 0) + lines[0].len() + 1);
    }
}

/// The span of lines behind one more line at their head.
pub proof fn lemma_span_shift(head: Seq<u8>, rest: Seq<Seq<u8>>, n: int)
    requires
        0 <= n <= rest.len(),
    ensures
        span(seq![head] + rest, n + 1) == head.len() + 1 + span(rest, n),
    decreases n,
{
    let all = seq![head] + rest;
    if n > 0 {
        lemma_span_shift(head, rest, n - 1);
        assert(all[n] == rest[n - 1]);
    } else {
        assert(span(all, 1) == span(all, 0) + all[0].len() + 1);
    }
}

/// The next line break of a piece of a file is the next line break of the
/// file, where the piece holds one.
pub proof fn lemma_next_break_in_piece(file: Seq<u8>, piece: Seq<u8>, at: int, from: int)
    requires
        0 <= at,
        at + piece.len() <= file.len(),
        piece == file.subrange(at, at + piece.len()),
        0 <= from <= piece.len(),
        next_break(piece, from) < piece.len(),
    ensures
        next_break(file, at + from) == at + next_break(piece, from),
        file.subrange(at + from, at + next_break(piece, from)) == piece.subrange(
            from,
            next_break(piece, from),
        ),
{
    lemma_next_break_bounds(piece, from);
    let stop = next_break(piece, from);
    assert forall|j: int| at + from <= j < at + stop implies file[j] != LINE_BREAK by {
        assert(file[j] == piece[j - at]);
    }
    assert(file[at + stop] == piece[stop]);
    lemma_next_break_is(file, at + from, at + stop);
    assert(file.subrange(at + from, at + stop) =~= piece.subrange(from, stop));
}

/// The last line of a file starts within the file.
pub proof fn lemma_tail_start_bounds(file: Seq<u8>)
    ensures
        0 <= tail_start(file) <= file.len(),
{
    if file.len() > 0 {
        lemma_line_start_of_bounds(file, file.len() - 1);
    }
}

/// The line that holds a byte starts at or before it.
pub proof fn lemma_line_start_of_bounds(file: Seq<u8>, position: int)
    requires
        0 <= position,
    ensures
        0 <= line_start_of(file, position) <= position,
    decreases position,
{
    if position > 0 && file[position - 1] != LINE_BREAK {
        lemma_line_start_of_bounds(file, position - 1);
    }
}

/// A line that starts at or before a byte starts at or before the line
/// that holds the byte.
pub proof fn lemma_line_start_of_is_last(file: Seq<u8>, start: int, position: int)
    requires
        is_line_start(file, start),
        start <= position,
    ensures
        start <= line_start_of(file, position),
    decreases position,
{
    if position > 0 && file[position - 1] != LINE_BREAK && start < position {
        lemma_line_start_of_is_last(file, start, position - 1);
    }
}

/// A line that starts before the end of a file starts at or before the
/// last line of the file.
pub proof fn lemma_line_start_before_tail(file: Seq<u8>, start: int)
    requires
        is_line_start(file, start),
        start < file.len(),
    ensures
        start <= tail_start(file),
{
    lemma_line_start_of_is_last(file, start, file.len() - 1);
}

} // verus!
