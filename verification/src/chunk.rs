//! A chunk: a contiguous, line-aligned slice of a file held in memory.

use crate::text::{
    byte_count, complete_lines, has_break, lemma_complete_lines, lemma_next_break_bounds,
    lemma_next_break_is, lemma_span_counts, lemma_span_monotone, lemma_span_prefix, next_break,
    span, total_span, unbroken, LINE_BREAK,
};
use vstd::prelude::*;
use vstd::slice::*;

verus! {

/// The lines of a piece of a file, with the byte offsets in the file at which
/// the piece begins and ends.
#[derive(Debug, PartialEq, Eq)]
pub struct Chunk {
    pub offset_begin: usize,
    pub offset_end: usize,
    pub rows: Vec<Vec<u8>>,
}

/// The rows of a chunk as mathematical lines.
pub open spec fn lines_of(rows: Seq<Vec<u8>>) -> Seq<Seq<u8>> {
    Seq::new(rows.len(), |i: int| rows[i]@)
}

/// The index of the first line break of `content` at or after `from`, or the
/// length of `content`.
pub fn find_break(content: &[u8], from: usize) -> (stop: usize)
    requires
        from <= content@.len(),
    ensures
        stop == next_break(content@, from as int),
        from <= stop <= content@.len(),
{
    let mut stop: usize = from;
    while stop < content.len() && content[stop] != LINE_BREAK
        invariant
            from <= stop <= content@.len(),
            forall|j: int| from <= j < stop ==> content@[j] != LINE_BREAK,
        decreases content@.len() - stop,
    {
        stop += 1;
    }
    proof {
        lemma_next_break_is(content@, from as int, stop as int);
    }
    stop
}

/// A copy of the bytes of `content` from `from` up to `to`.
pub fn copy_range(content: &[u8], from: usize, to: usize) -> (piece: Vec<u8>)
    requires
        from <= to <= content@.len(),
    ensures
        piece@ == content@.subrange(from as int, to as int),
{
    slice_to_vec(slice_subrange(content, from, to))
}

impl Chunk {
    /// The rows as mathematical lines.
    pub open spec fn lines(&self) -> Seq<Seq<u8>> {
        lines_of(self.rows@)
    }

    /// True when the chunk ends right after the line break of its last row
    /// (or holds no row and no byte).
    pub open spec fn ends_at_break(&self) -> bool {
        self.offset_end - self.offset_begin == total_span(self.lines())
    }

    /// True when the last row of the chunk is not followed by a line break
    /// inside the chunk.
    pub open spec fn ends_open(&self) -> bool {
        &&& self.rows@.len() > 0
        &&& self.lines().last().len() > 0
        &&& self.offset_end - self.offset_begin == total_span(self.lines()) - 1
    }

    /// The invariant of a chunk: no row holds a line break, and the bytes
    /// between the two offsets are the rows with one line break after each,
    /// but for a last row that the chunk leaves open.
    pub open spec fn wf(&self) -> bool {
        &&& self.offset_begin <= self.offset_end
        &&& forall|i: int| 0 <= i < self.lines().len() ==> unbroken(#[trigger] self.lines()[i])
        &&& (self.ends_at_break() || self.ends_open())
    }

    /// The span of a chunk: the bytes between its offsets are the bytes of
    /// its rows and one line break for each row, but for the last row where
    /// the chunk leaves it open.
    pub proof fn lemma_span_law(&self)
        requires
            self.wf(),
        ensures
            self.offset_begin <= self.offset_end,
            self.offset_end - self.offset_begin == byte_count(
                self.lines(),
                self.rows@.len() as int,
            ) + self.rows@.len() - if self.ends_open() {
                1int
            } else {
                0int
            },
    {
        lemma_span_counts(self.lines(), self.rows@.len() as int);
    }

    /// The offset in the file at which row `i` starts; for `i` the number of
    /// rows, the offset after the line break of the last row.
    pub open spec fn row_start(&self, i: int) -> int {
        self.offset_begin + span(self.lines(), i)
    }

    /// True when `offset` is the start of a row of the chunk.
    pub open spec fn at_row_start(&self, offset: int) -> bool {
        exists|i: int| 0 <= i < self.rows@.len() && #[trigger] self.row_start(i) == offset
    }

    /// The number of bytes at the head of `content` that a chunk leaves out
    /// when it drops the first, partial line.
    pub open spec fn skipped(content: Seq<u8>, drop_first: bool) -> int {
        if drop_first {
            next_break(content, 0) + 1
        } else {
            0
        }
    }

    /// The bytes of `content` that follow its last line break, from
    /// `skip` on.
    pub open spec fn open_tail(content: Seq<u8>, skip: int) -> Seq<u8> {
        content.subrange(skip + total_span(complete_lines(content, skip)), content.len() as int)
    }

    /// True when a chunk built from `content` keeps the bytes after the last
    /// line break as a row of their own.
    pub open spec fn keeps_tail(content: Seq<u8>, skip: int, drop_last: bool) -> bool {
        !drop_last && Self::open_tail(content, skip).len() > 0
    }

    /// The rows of the chunk built from `content`.
    pub open spec fn split(content: Seq<u8>, drop_first: bool, drop_last: bool) -> Seq<Seq<u8>> {
        let skip = Self::skipped(content, drop_first);
        if Self::keeps_tail(content, skip, drop_last) {
            complete_lines(content, skip).push(Self::open_tail(content, skip))
        } else {
            complete_lines(content, skip)
        }
    }

    /// The number of bytes of `content` that the chunk built from it covers,
    /// counted from the start of `content`.
    pub open spec fn consumed(content: Seq<u8>, drop_first: bool, drop_last: bool) -> int {
        let skip = Self::skipped(content, drop_first);
        if Self::keeps_tail(content, skip, drop_last) {
            content.len() as int
        } else {
            skip + total_span(complete_lines(content, skip))
        }
    }

    /// Splits `content`, which stands at `content_offset` in the file, into
    /// rows at its line breaks. With `drop_first` the bytes up to and
    /// including the first line break are left out; with `drop_last` so are
    /// the bytes after the last line break.
    pub fn build_chunk(
        content: &[u8],
        content_offset: usize,
        drop_first: bool,
        drop_last: bool,
    ) -> (chunk: Chunk)
        requires
            content_offset + content@.len() <= usize::MAX,
            drop_first ==> has_break(content@),
        ensures
            chunk.wf(),
            chunk.offset_begin == content_offset + Self::skipped(content@, drop_first),
            chunk.offset_end == content_offset + Self::consumed(content@, drop_first, drop_last),
            chunk.lines() == Self::split(content@, drop_first, drop_last),
            chunk.ends_open() <==> Self::keeps_tail(
                content@,
                Self::skipped(content@, drop_first),
                drop_last,
            ),
            chunk.offset_end - chunk.offset_begin == byte_count(
                chunk.lines(),
                chunk.rows@.len() as int,
            ) + chunk.rows@.len() - if Self::keeps_tail(
                content@,
                Self::skipped(content@, drop_first),
                drop_last,
            ) {
                1int
            } else {
                0int
            },
    {
        let mut cur_index: usize = 0;
        if drop_first {
            let first_line_break = find_break(content, 0);
            cur_index = first_line_break + 1;
        }
        let ghost skip = cur_index as int;
        let offset_begin = content_offset + cur_index;
        let mut rows: Vec<Vec<u8>> = Vec::new();
        proof {
            lemma_complete_lines(content@, skip);
            assert(lines_of(rows@) =~= Seq::<Seq<u8>>::empty());
        }
        loop
            invariant_except_break
                skip <= cur_index <= content@.len(),
                complete_lines(content@, skip) == lines_of(rows@) + complete_lines(
                    content@,
                    cur_index as int,
                ),
                cur_index == skip + total_span(lines_of(rows@)),
            invariant
                0 <= skip <= content@.len(),
            ensures
                skip <= cur_index <= content@.len(),
                complete_lines(content@, skip) == lines_of(rows@),
                cur_index == skip + total_span(lines_of(rows@)),
            decreases content@.len() - cur_index,
        {
            let next_line_break = find_break(content, cur_index);
            if next_line_break >= content.len() {
                proof {
                    assert(complete_lines(content@, cur_index as int) =~= Seq::<Seq<u8>>::empty());
                    assert(lines_of(rows@) + Seq::<Seq<u8>>::empty() =~= lines_of(rows@));
                }
                break ;
            }
            let row = copy_range(content, cur_index, next_line_break);
            proof {
                let before = lines_of(rows@);
                let after = lines_of(rows@.push(row));
                let rest = complete_lines(content@, next_line_break + 1);
                assert(after =~= before.push(row@));
                assert(complete_lines(content@, cur_index as int) == seq![row@] + rest);
                assert(before + (seq![row@] + rest) =~= after + rest);
                lemma_span_prefix(after, before, before.len() as int);
            }
            rows.push(row);
            cur_index = next_line_break + 1;
        }
        let ghost closed = cur_index as int;
        if !drop_last && cur_index < content.len() {
            let row = copy_range(content, cur_index, content.len());
            proof {
                let before = lines_of(rows@);
                let after = lines_of(rows@.push(row));
                assert(after =~= before.push(row@));
                lemma_span_prefix(after, before, before.len() as int);
                lemma_next_break_bounds(content@, closed);
                assert(after.last() == row@);
            }
            rows.push(row);
            cur_index = content.len();
        }
        let offset_end = content_offset + cur_index;
        let chunk = Chunk { offset_begin, offset_end, rows };
        proof {
            let complete = complete_lines(content@, skip);
            assert(chunk.lines() == Self::split(content@, drop_first, drop_last));
            assert forall|i: int| 0 <= i < chunk.lines().len() implies unbroken(
                #[trigger] chunk.lines()[i],
            ) by {
                if i < complete.len() {
                    assert(chunk.lines()[i] == complete[i]);
                }
            }
            lemma_span_monotone(chunk.lines(), 0, chunk.lines().len() as int);
            lemma_span_counts(chunk.lines(), chunk.lines().len() as int);
        }
        chunk
    }

    /// The index of the row that holds `offset`, where the line break after
    /// a row counts as part of it.
    pub fn query_line_index(&self, offset: usize) -> (index: usize)
        requires
            self.wf(),
            self.offset_begin <= offset < self.offset_end,
        ensures
            index < self.rows@.len(),
            self.row_start(index as int) <= offset < self.row_start(index + 1),
    {
        let mut current_line_offset_begin: usize = self.offset_begin;
        let mut index: usize = 0;
        let row_count = self.rows.len();
        proof {
            lemma_span_monotone(self.lines(), 0, self.rows@.len() as int);
        }
        loop
            invariant
                self.wf(),
                row_count == self.rows@.len(),
                self.offset_begin <= offset < self.offset_end,
                index < self.rows@.len(),
                current_line_offset_begin == self.row_start(index as int),
                current_line_offset_begin <= offset,
            ensures
                index < self.rows@.len(),
                self.row_start(index as int) <= offset < self.row_start(index + 1),
            decreases self.rows@.len() - index,
        {
            proof {
                lemma_span_monotone(self.lines(), index + 1, self.rows@.len() as int);
            }
            if offset - current_line_offset_begin <= self.rows[index].len() {
                break ;
            }
            current_line_offset_begin += self.rows[index].len() + 1;
            index += 1;
        }
        index
    }

    /// The index of the row that starts at `offset`.
    pub fn query_line_index_exactly(&self, offset: usize) -> (index: usize)
        requires
            self.wf(),
            self.at_row_start(offset as int),
        ensures
            index < self.rows@.len(),
            self.row_start(index as int) == offset,
    {
        proof {
            let i = choose|i: int| 0 <= i < self.rows@.len()
                && #[trigger] self.row_start(i) == offset;
            lemma_span_monotone(self.lines(), 0, i);
            lemma_span_monotone(self.lines(), i + 1, self.rows@.len() as int);
        }
        let index = self.query_line_index(offset);
        proof {
            let i = choose|i: int| 0 <= i < self.rows@.len()
                && #[trigger] self.row_start(i) == offset;
            if i < index {
                lemma_span_monotone(self.lines(), i + 1, index as int);
            } else if i > index {
                lemma_span_monotone(self.lines(), index + 1, i);
            }
        }
        index
    }

    /// Tells whether `offset` is the start of a row of the chunk.
    pub fn is_row_start(&self, offset: usize) -> (found: bool)
        requires
            self.wf(),
        ensures
            found == self.at_row_start(offset as int),
    {
        if offset < self.offset_begin || offset >= self.offset_end {
            proof {
                if self.at_row_start(offset as int) {
                    let i = choose|i: int|
                        0 <= i < self.rows@.len() && #[trigger] self.row_start(i) == offset;
                    lemma_span_monotone(self.lines(), 0, i);
                    lemma_span_monotone(self.lines(), i + 1, self.rows@.len() as int);
                }
            }
            return false;
        }
        let index = self.query_line_index(offset);
        proof {
            lemma_span_monotone(self.lines(), 0, index as int);
            lemma_span_monotone(self.lines(), index + 1, self.rows@.len() as int);
        }
        let start = self.query_line_start_offset(index);
        proof {
            if start != offset && self.at_row_start(offset as int) {
                let i = choose|i: int|
                    0 <= i < self.rows@.len() && #[trigger] self.row_start(i) == offset;
                if i < index {
                    lemma_span_monotone(self.lines(), i + 1, index as int);
                } else if i > index {
                    lemma_span_monotone(self.lines(), index + 1, i);
                }
            }
        }
        start == offset
    }

    /// The offset in the file at which row `index` starts; for `index` the
    /// number of rows, the offset after the line break of the last row.
    pub fn query_line_start_offset(&self, index: usize) -> (offset: usize)
        requires
            self.wf(),
            index <= self.rows@.len(),
            self.row_start(index as int) <= usize::MAX,
        ensures
            offset == self.row_start(index as int),
    {
        let mut offset: usize = self.offset_begin;
        let mut i: usize = 0;
        while i < index
            invariant
                i <= index <= self.rows@.len(),
                offset == self.row_start(i as int),
                self.row_start(index as int) <= usize::MAX,
            decreases index - i,
        {
            proof {
                lemma_span_monotone(self.lines(), i + 1, index as int);
            }
            offset += self.rows[i].len() + 1;
            i += 1;
        }
        offset
    }
}

} // verus!
