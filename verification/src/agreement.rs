//! What ties a document to the file that it was loaded from: a document
//! agrees with a file when its chunks hold lines of the file and its last
//! line is the last line of the file. The answers of a document that agrees
//! with a file are then those that the file itself gives, whichever of its
//! chunks are loaded.

use crate::chunk::Chunk;
use crate::document::{incoming, readable, taken, Document, Fetch, Incoming, LoadError};
use crate::log_timestamp::{numbers_reached, LogDateTime};
use crate::text::{
    complete_lines, file_distance_below, file_lines, is_line_start, lemma_complete_line_in_place,
    lemma_complete_lines, lemma_line_start_before_tail, lemma_line_start_of_is,
    lemma_next_break_bounds, lemma_next_break_in_piece, lemma_next_break_is, lemma_span_monotone,
    lemma_span_prefix, line_from, next_break, span, tail_body, tail_start, total_span, unbroken,
    LINE_BREAK,
};
use vstd::prelude::*;
use vstd::utf8::valid_utf8;

verus! {

impl Chunk {
    /// True when the rows of the chunk are the lines of `file` at the places
    /// that the chunk gives them, each followed by a line break of the file.
    pub open spec fn agrees_with(&self, file: Seq<u8>) -> bool {
        &&& self.offset_end <= file.len()
        &&& is_line_start(file, self.offset_begin as int)
        &&& forall|i: int|
            0 <= i < self.rows@.len() ==> {
                &&& #[trigger] self.lines()[i] == line_from(file, self.row_start(i))
                &&& next_break(file, self.row_start(i)) < file.len()
            }
    }

    /// Every byte of a chunk that ends at a line break lies in one of its
    /// rows or is the line break after it.
    pub proof fn lemma_position_in_row(&self, position: int, n: int)
        requires
            0 <= n <= self.rows@.len(),
            self.offset_begin <= position < self.row_start(n),
        ensures
            exists|i: int| 0 <= i < n
                && self.row_start(i) <= position < #[trigger] self.row_start(i + 1),
        decreases n,
    {
        if position < self.row_start(n - 1) {
            self.lemma_position_in_row(position, n - 1);
            let i = choose|i: int|
                0 <= i < n - 1 && self.row_start(i) <= position < #[trigger] self.row_start(i + 1);
            assert(self.row_start(i) <= position < self.row_start(i + 1));
        } else {
            assert(self.row_start(n - 1) <= position < self.row_start(n - 1 + 1));
        }
    }
}

impl Document {
    /// True when the document holds what `file` holds: it has the size of
    /// the file, its chunks agree with the file, and its last line is the
    /// last line of the file.
    pub open spec fn agrees_with(&self, file: Seq<u8>) -> bool {
        &&& self.document_size == file.len()
        &&& forall|k: int| 0 <= k < self.chunks@.len()
            ==> (#[trigger] self.chunks@[k]).agrees_with(file)
        &&& self.last_line@ == file.subrange(self.last_line_start(), file.len() as int)
        &&& is_line_start(file, self.last_line_start())
        &&& file.len() > 0 ==> self.last_line@.len() > 0
    }

    /// The last line of a document that agrees with a file starts where the
    /// last line of the file starts.
    pub proof fn lemma_last_line_is_tail(&self, file: Seq<u8>)
        requires
            self.wf(),
            self.agrees_with(file),
        ensures
            self.last_line_start() == tail_start(file),
            self.last_line_body() == tail_body(file),
    {
        if file.len() > 0 {
            let start = self.last_line_start();
            assert forall|j: int| start <= j < file.len() - 1 implies file[j] != LINE_BREAK by {
                assert(file[j] == self.last_line@[j - start]);
            }
            lemma_line_start_of_is(file, start, file.len() - 1);
        }
    }

    /// A row of a document that agrees with a file is the line of the file
    /// that starts where the row starts.
    pub proof fn lemma_row_is_file_line(&self, file: Seq<u8>, k: int, i: int)
        requires
            self.wf(),
            self.agrees_with(file),
            0 <= k < self.chunks@.len(),
            0 <= i < self.chunks@[k].rows@.len(),
        ensures
            is_line_start(file, self.chunks@[k].row_start(i)),
            self.chunks@[k].lines()[i] == line_from(file, self.chunks@[k].row_start(i)),
            next_break(file, self.chunks@[k].row_start(i)) + 1 == self.chunks@[k].row_start(i + 1),
            is_line_start(file, self.chunks@[k].row_start(i + 1)),
        decreases i,
    {
        let chunk = self.chunks@[k];
        assert(chunk.agrees_with(file));
        self.lemma_row_bounds(k, i);
        let start = chunk.row_start(i);
        lemma_next_break_bounds(file, start);
        if i > 0 {
            self.lemma_row_is_file_line(file, k, i - 1);
        }
    }

    /// The lines that a document gives are the lines of the file that it
    /// agrees with.
    pub proof fn lemma_lines_are_file_lines(&self, file: Seq<u8>, offset: int, line_count: nat)
        requires
            self.wf(),
            self.agrees_with(file),
            self.lines_from(offset, line_count) is Ready,
        ensures
            self.lines_from(offset, line_count) == Fetch::Ready(
                file_lines(file, offset, line_count),
            ),
        decreases line_count,
    {
        self.lemma_last_line_is_tail(file);
        if line_count > 0 && offset < self.last_line_start() {
            let (k, i) = choose|k: int, i: int| self.holds_line(k, i, offset);
            self.lemma_line_unique(k, i, offset);
            self.lemma_row_is_file_line(file, k, i);
            self.lemma_row_bounds(k, i);
            let line = self.line_at(offset);
            self.lemma_lines_are_file_lines(file, offset + line.len() + 1, (line_count - 1) as nat);
        }
    }

    /// The same query gives the same lines whichever chunks are loaded: two
    /// documents that agree with one file give the same lines where both
    /// have them, and they are of one size and have one last line.
    pub proof fn lemma_query_lines_stable(
        &self,
        other: &Document,
        file: Seq<u8>,
        offset: int,
        line_count: nat,
    )
        requires
            self.wf(),
            other.wf(),
            self.agrees_with(file),
            other.agrees_with(file),
        ensures
            self.document_size == other.document_size,
            self.last_line@ == other.last_line@,
            self.lines_from(offset, line_count) is Ready && other.lines_from(
                offset,
                line_count,
            ) is Ready ==> self.lines_from(offset, line_count) == other.lines_from(
                offset,
                line_count,
            ),
    {
        self.lemma_last_line_is_tail(file);
        other.lemma_last_line_is_tail(file);
        if self.lines_from(offset, line_count) is Ready && other.lines_from(
            offset,
            line_count,
        ) is Ready {
            self.lemma_lines_are_file_lines(file, offset, line_count);
            other.lemma_lines_are_file_lines(file, offset, line_count);
        }
    }

    /// The distance that a document gives downwards is the distance in the
    /// file that it agrees with, and leads from a line start to a line start
    /// at or before the start of the last line.
    #[verifier::rlimit(30)]
    pub proof fn lemma_distance_below_is_file_distance(
        &self,
        file: Seq<u8>,
        offset: int,
        line_count: nat,
    )
        requires
            self.wf(),
            self.agrees_with(file),
            self.distance_below(offset, line_count) is Ready,
        ensures
            self.distance_below(offset, line_count) == Fetch::Ready(
                file_distance_below(file, offset, line_count),
            ),
            0 <= file_distance_below(file, offset, line_count),
            is_line_start(file, offset) ==> is_line_start(
                file,
                offset + file_distance_below(file, offset, line_count),
            ),
            offset <= tail_start(file) ==> offset + file_distance_below(file, offset, line_count)
                <= tail_start(file),
        decreases line_count,
    {
        self.lemma_last_line_is_tail(file);
        if line_count > 0 && offset < self.last_line_start() {
            assert(self.line_known(offset));
            let (k, i) = choose|k: int, i: int| self.holds_line(k, i, offset);
            self.lemma_line_unique(k, i, offset);
            let line = self.line_at(offset);
            let next = offset + line.len() + 1;
            assert(next == next_break(file, offset) + 1 && is_line_start(file, next) && next
                <= tail_start(file)) by {
                self.lemma_row_is_file_line(file, k, i);
                self.lemma_row_bounds(k, i);
            }
            let rest = self.distance_below(next, (line_count - 1) as nat);
            assert(rest is Ready);
            self.lemma_distance_below_is_file_distance(file, next, (line_count - 1) as nat);
            assert(self.distance_below(offset, line_count)->Ready_0 == line.len() + 1
                + rest->Ready_0);
            assert(file_distance_below(file, offset, line_count) == next - offset
                + file_distance_below(file, next, (line_count - 1) as nat));
        }
    }

    /// The distance that a document gives upwards leads from a line start
    /// of the file that it agrees with to a line start of that file.
    #[verifier::rlimit(30)]
    pub proof fn lemma_distance_back_reaches_line_start(
        &self,
        file: Seq<u8>,
        offset: int,
        line_count: nat,
    )
        requires
            self.wf(),
            self.agrees_with(file),
            is_line_start(file, offset),
            self.distance_back(offset, line_count) is Ready,
        ensures
            0 <= self.distance_back(offset, line_count)->Ready_0 <= offset,
            is_line_start(file, offset - self.distance_back(offset, line_count)->Ready_0),
        decreases line_count,
    {
        if line_count > 0 && offset > 0 {
            assert(self.line_before_known(offset));
            let (k, i) = choose|k: int, i: int| self.holds_line_before(k, i, offset);
            self.lemma_line_before_unique(k, i, offset);
            let line = self.line_before(offset);
            let above = offset - line.len() - 1;
            assert(above == self.chunks@[k].row_start(i)) by {
                self.lemma_row_bounds(k, i);
            }
            assert(is_line_start(file, above)) by {
                self.lemma_row_is_file_line(file, k, i);
            }
            let rest = self.distance_back(above, (line_count - 1) as nat);
            assert(rest is Ready);
            self.lemma_distance_back_reaches_line_start(file, above, (line_count - 1) as nat);
            assert(self.distance_back(offset, line_count)->Ready_0 == line.len() + 1
                + rest->Ready_0);
        }
    }

    /// A line start of the file, at or before the start of its last line,
    /// can start a query on every document that agrees with the file.
    pub proof fn lemma_file_line_start_can_start(&self, file: Seq<u8>, offset: int)
        requires
            self.wf(),
            self.agrees_with(file),
            is_line_start(file, offset),
        ensures
            self.at_line_start(offset),
    {
        if offset < self.last_line_start() && self.covered(offset) {
            let k = choose|k: int| 0 <= k < self.chunks@.len()
                && #[trigger] self.covered_by(k, offset);
            let chunk = self.chunks@[k];
            assert(chunk.wf());
            let count = chunk.rows@.len() as int;
            if offset == chunk.offset_begin {
                assert(self.holds_line(k, 0, offset));
            } else {
                chunk.lemma_position_in_row(offset - 1, count);
                let i = choose|i: int|
                    0 <= i < count && chunk.row_start(i) <= offset - 1 < #[trigger] chunk.row_start(
                        i + 1,
                    );
                self.lemma_row_is_file_line(file, k, i);
                lemma_next_break_bounds(file, chunk.row_start(i));
                if i + 1 == count {
                    self.lemma_row_bounds(k, i);
                }
                assert(self.holds_line(k, i + 1, offset));
            }
        }
    }
}

/// The lines that a read brings are lines of the file that was read: each
/// stands in the file where the spans of the lines before it put it.
pub proof fn lemma_incoming_lines_in_file(
    content: Seq<u8>,
    read_begin: int,
    cover_end: bool,
    file: Seq<u8>,
    row: int,
)
    requires
        0 <= read_begin,
        content.len() > 0,
        read_begin + content.len() <= file.len(),
        content == file.subrange(read_begin, read_begin + content.len()),
        readable(content, read_begin, cover_end),
        0 <= row < incoming(content, read_begin, cover_end).lines.len(),
    ensures
        ({
            let inc = incoming(content, read_begin, cover_end);
            let start = inc.begin + span(inc.lines, row);
            &&& inc.lines[row] == line_from(file, start)
            &&& next_break(file, start) < file.len()
        }),
{
    let drop_first = read_begin > 0;
    let skip = Chunk::skipped(content, drop_first);
    let inc = incoming(content, read_begin, cover_end);
    let complete = complete_lines(content, skip);
    lemma_next_break_bounds(content, 0);
    lemma_complete_lines(content, skip);
    assert(row < complete.len() && inc.lines[row] == complete[row]);
    lemma_complete_line_in_place(content, skip, row);
    lemma_span_prefix(inc.lines, complete, row);
    lemma_next_break_in_piece(file, content, read_begin, skip + span(complete, row));
}

/// What a read brings starts at a line start of the file that was read and
/// ends within it.
pub proof fn lemma_incoming_bounds_in_file(
    content: Seq<u8>,
    read_begin: int,
    cover_end: bool,
    file: Seq<u8>,
)
    requires
        0 <= read_begin,
        content.len() > 0,
        read_begin + content.len() <= file.len(),
        content == file.subrange(read_begin, read_begin + content.len()),
        readable(content, read_begin, cover_end),
    ensures
        is_line_start(file, incoming(content, read_begin, cover_end).begin),
        incoming(content, read_begin, cover_end).end <= file.len(),
{
    let drop_first = read_begin > 0;
    let skip = Chunk::skipped(content, drop_first);
    let inc = incoming(content, read_begin, cover_end);
    lemma_next_break_bounds(content, 0);
    lemma_complete_lines(content, skip);
    if drop_first {
        assert(file[read_begin + skip - 1] == content[skip - 1]);
    }
}

/// The last line that a read up to the end of a file brings is the last
/// line of the file.
pub proof fn lemma_incoming_last_line_in_file(content: Seq<u8>, read_begin: int, file: Seq<u8>)
    requires
        0 <= read_begin,
        content.len() > 0,
        read_begin + content.len() == file.len(),
        content == file.subrange(read_begin, file.len() as int),
        readable(content, read_begin, true),
    ensures
        ({
            let inc = incoming(content, read_begin, true);
            &&& inc.last_line matches Some(line)
            &&& 0 < line.len() <= file.len()
            &&& line == file.subrange(file.len() - line.len(), file.len() as int)
            &&& is_line_start(file, file.len() - line.len())
        }),
{
    let drop_first = read_begin > 0;
    let skip = Chunk::skipped(content, drop_first);
    let inc = incoming(content, read_begin, true);
    let complete = complete_lines(content, skip);
    let closed = skip + total_span(complete);
    let rows = Chunk::split(content, drop_first, false);
    lemma_next_break_bounds(content, 0);
    lemma_complete_lines(content, skip);
    lemma_next_break_bounds(content, closed);
    if drop_first {
        assert(file[read_begin + skip - 1] == content[skip - 1]);
    }
    if content.last() == LINE_BREAK {
        assert(closed == content.len());
        assert(rows == complete);
        let last = complete.len() - 1;
        lemma_complete_line_in_place(content, skip, last);
        let start = skip + span(complete, last);
        let line = complete[last].push(LINE_BREAK);
        assert(inc.last_line == Some(line));
        assert(start + line.len() == content.len());
        assert(line =~= content.subrange(start, content.len() as int));
        assert(line =~= file.subrange(read_begin + start, file.len() as int));
        if last > 0 {
            lemma_complete_line_in_place(content, skip, last - 1);
            lemma_next_break_bounds(content, skip + span(complete, last - 1));
            assert(content[start - 1] == LINE_BREAK);
            assert(file[read_begin + start - 1] == content[start - 1]);
        } else {
            assert(start == skip);
        }
        assert(is_line_start(file, read_begin + start));
        assert(file.len() - line.len() == read_begin + start);
    } else {
        assert(closed < content.len());
        let line = content.subrange(closed, content.len() as int);
        assert(rows == complete.push(line));
        assert(inc.last_line == Some(line));
        assert(line =~= file.subrange(read_begin + closed, file.len() as int));
        if complete.len() > 0 {
            assert(file[read_begin + closed - 1] == content[closed - 1]);
        }
        assert(is_line_start(file, read_begin + closed));
        assert(file.len() - line.len() == read_begin + closed);
    }
}

impl Document {
    /// True when `bytes` are what `file` holds in the window of a load of
    /// the interval from `offset_begin` to `offset_end`: those of the window
    /// as far as they were read, and all of them where the window reaches
    /// the end of the file.
    pub open spec fn read_from(
        &self,
        file: Seq<u8>,
        offset_begin: int,
        offset_end: int,
        bytes: Seq<u8>,
    ) -> bool {
        self.spec_plan(offset_begin, offset_end) matches Some((read_begin, read_end)) ==> {
            let content = taken(bytes, read_begin as int, read_end as int);
            &&& read_begin < read_end <= self.document_size
            &&& content == file.subrange(read_begin as int, read_begin + content.len())
            &&& read_end >= self.document_size ==> content.len() == read_end - read_begin
        }
    }

    /// A load keeps a document in agreement with the file, where the bytes
    /// handed to it are those that the file holds in the window of the
    /// load, as far as they were read, and all of them where the window
    /// reaches the end of the file.
    pub proof fn lemma_load_keeps_agreement(
        &self,
        after: &Document,
        file: Seq<u8>,
        offset_begin: int,
        offset_end: int,
        bytes: Seq<u8>,
        loaded: Result<Option<usize>, LoadError>,
    )
        requires
            self.wf(),
            after.wf(),
            self.agrees_with(file),
            self.loads(after, offset_begin, offset_end, bytes, loaded),
            self.read_from(file, offset_begin, offset_end, bytes),
        ensures
            after.agrees_with(file),
    {
        if let Some((read_begin, read_end)) = self.spec_plan(offset_begin, offset_end) {
            let cover_end = read_end >= self.document_size;
            let content = taken(bytes, read_begin as int, read_end as int);
            let inc = incoming(content, read_begin as int, cover_end);
            if loaded is Ok {
                lemma_incoming_bounds_in_file(content, read_begin as int, cover_end, file);
                if cover_end {
                    lemma_incoming_last_line_in_file(content, read_begin as int, file);
                }
                match loaded {
                    Ok(Some(i)) => {
                        let j = choose|j: int| self.spliced(after, i as int, j, inc);
                        let shift = j - i - 1;
                        let chunk = after.chunks@[i as int];
                        assert(chunk.agrees_with(file)) by {
                            assert forall|row: int| 0 <= row < chunk.rows@.len() implies {
                                &&& #[trigger] chunk.lines()[row] == line_from(
                                    file,
                                    chunk.row_start(row),
                                )
                                &&& next_break(file, chunk.row_start(row)) < file.len()
                            } by {
                                lemma_incoming_lines_in_file(
                                    content,
                                    read_begin as int,
                                    cover_end,
                                    file,
                                    row,
                                );
                            }
                        }
                        assert forall|k: int| 0 <= k < after.chunks@.len() implies (
                        #[trigger] after.chunks@[k]).agrees_with(file) by {
                            if k < i {
                                assert(after.chunks@[k] == self.chunks@[k]);
                            } else if k > i {
                                assert(after.chunks@[k] == self.chunks@[k + shift]);
                            }
                        }
                    },
                    _ => {},
                }
            }
        }
    }
}

/// What a read of the bytes of a file brings ends at a line start of the
/// file, and the last line that it brings starts where the last line of the
/// file starts.
pub proof fn lemma_incoming_end_in_file(
    content: Seq<u8>,
    read_begin: int,
    cover_end: bool,
    file: Seq<u8>,
)
    requires
        0 <= read_begin,
        content.len() > 0,
        read_begin + content.len() <= file.len(),
        cover_end <==> read_begin + content.len() == file.len(),
        content == file.subrange(read_begin, read_begin + content.len()),
        readable(content, read_begin, cover_end),
    ensures
        ({
            let inc = incoming(content, read_begin, cover_end);
            &&& inc.begin <= inc.end <= tail_start(file)
            &&& is_line_start(file, inc.end)
            &&& inc.last_line matches Some(line) ==> inc.end == file.len() - line.len()
                && inc.end == tail_start(file)
            &&& inc.last_line is None ==> inc.end == read_begin + Chunk::skipped(
                content,
                read_begin > 0,
            ) + total_span(complete_lines(content, Chunk::skipped(content, read_begin > 0)))
        }),
{
    let drop_first = read_begin > 0;
    let skip = Chunk::skipped(content, drop_first);
    let inc = incoming(content, read_begin, cover_end);
    let complete = complete_lines(content, skip);
    let closed = skip + total_span(complete);
    lemma_next_break_bounds(content, 0);
    lemma_complete_lines(content, skip);
    lemma_next_break_bounds(content, closed);
    lemma_incoming_bounds_in_file(content, read_begin, cover_end, file);
    if cover_end {
        lemma_incoming_last_line_in_file(content, read_begin, file);
        let line = inc.last_line->0;
        let start = file.len() - line.len();
        assert forall|j: int| start <= j < file.len() - 1 implies file[j] != LINE_BREAK by {
            assert(file[j] == line[j - start]);
            if content.last() == LINE_BREAK {
                let last = complete.len() - 1;
                assert(unbroken(complete[last]));
                assert(line == complete[last].push(LINE_BREAK));
                assert(line[j - start] == complete[last][j - start]);
            } else {
                assert(line == content.subrange(closed, content.len() as int));
                assert(line[j - start] == content[closed + j - start]);
            }
        }
        lemma_line_start_of_is(file, start, file.len() - 1);
        if content.last() == LINE_BREAK {
            let last = complete.len() - 1;
            lemma_span_monotone(complete, 0, last);
            assert(span(complete, last + 1) == span(complete, last) + complete[last].len() + 1);
        }
    } else {
        if complete.len() > 0 {
            assert(file[read_begin + closed - 1] == content[closed - 1]);
        }
        lemma_line_start_before_tail(file, read_begin + closed);
    }
}

impl Document {
    /// From every offset on there is a first offset that no chunk covers.
    pub proof fn lemma_forward_slide_exists(&self, from: int)
        requires
            self.wf(),
        ensures
            self.forward_slide(from, self.slid_begin(from)),
        decreases self.document_size - from,
    {
        if self.covered(from) {
            let k = choose|k: int| 0 <= k < self.chunks@.len()
                && #[trigger] self.covered_by(k, from);
            let next = self.chunks@[k].offset_end as int;
            self.lemma_forward_slide_exists(next);
            let to = self.slid_begin(next);
            assert forall|x: int| from <= x < to implies self.covered(x) by {
                if x < next {
                    assert(self.covered_by(k, x));
                }
            }
            assert(self.forward_slide(from, to));
        } else {
            assert(self.forward_slide(from, from));
        }
    }

    /// True when `to` is the start of the run of covered offsets that the
    /// covered offset `from` stands in.
    pub open spec fn run_start(&self, from: int, to: int) -> bool {
        &&& to <= from
        &&& !self.covered(to - 1)
        &&& forall|x: int| to <= x <= from ==> self.covered(x)
    }

    /// The run of covered offsets that a covered offset stands in has a
    /// start.
    pub proof fn lemma_covered_run_starts(&self, from: int)
        requires
            self.wf(),
            self.covered(from),
        ensures
            exists|to: int| #[trigger] self.run_start(from, to),
        decreases from,
    {
        let k = choose|k: int| 0 <= k < self.chunks@.len() && #[trigger] self.covered_by(k, from);
        let start = self.chunks@[k].offset_begin as int;
        assert forall|x: int| start <= x <= from implies self.covered(x) by {
            assert(self.covered_by(k, x));
        }
        if self.covered(start - 1) {
            self.lemma_covered_run_starts(start - 1);
            let to = choose|to: int| #[trigger] self.run_start(start - 1, to);
            assert(self.run_start(from, to));
        } else {
            assert(self.run_start(from, start));
        }
    }

    /// For every offset there is the end that an interval that was to end
    /// there has to take.
    pub proof fn lemma_backward_slide_exists(&self, from: int)
        requires
            self.wf(),
        ensures
            self.backward_slide(from, self.slid_end(from)),
    {
        if self.covered(from) {
            self.lemma_covered_run_starts(from);
            let to = choose|to: int| #[trigger] self.run_start(from, to);
            assert(self.backward_slide(from, to));
        } else {
            assert(self.backward_slide(from, from));
        }
    }

    /// A load is taken in where the document agrees with a file and the
    /// bytes are those that the file holds in the whole window of the load
    /// and hold the line boundaries that the load needs: what they bring
    /// fits the chunks that are loaded.
    #[verifier::rlimit(40)]
    pub proof fn lemma_agreeing_load_is_accepted(
        &self,
        file: Seq<u8>,
        offset_begin: int,
        offset_end: int,
        bytes: Seq<u8>,
        read_begin: usize,
        read_end: usize,
    )
        requires
            self.wf(),
            self.agrees_with(file),
            0 <= offset_begin < offset_end,
            offset_begin < self.document_size,
            self.spec_plan(offset_begin, offset_end) == Some((read_begin, read_end)),
            bytes.len() >= read_end - read_begin,
            self.read_from(file, offset_begin, offset_end, bytes),
            readable(
                taken(bytes, read_begin as int, read_end as int),
                read_begin as int,
                read_end >= self.document_size,
            ),
        ensures
            self.accepts(
                incoming(
                    taken(bytes, read_begin as int, read_end as int),
                    read_begin as int,
                    read_end >= self.document_size,
                ),
            ),
    {
        let cover_end = read_end >= self.document_size;
        let content = taken(bytes, read_begin as int, read_end as int);
        let inc = incoming(content, read_begin as int, cover_end);
        let end = if offset_end < self.document_size {
            offset_end
        } else {
            self.document_size as int
        };
        let b = self.slid_begin(offset_begin);
        let e = self.slid_end(end);
        self.lemma_forward_slide_exists(offset_begin);
        self.lemma_backward_slide_exists(end);
        self.lemma_last_line_is_tail(file);
        lemma_incoming_end_in_file(content, read_begin as int, cover_end, file);
        lemma_incoming_bounds_in_file(content, read_begin as int, cover_end, file);
        let drop_first = read_begin > 0;
        let skip = Chunk::skipped(content, drop_first);
        let closed = skip + total_span(complete_lines(content, skip));
        lemma_next_break_bounds(content, 0);
        lemma_complete_lines(content, skip);
        lemma_next_break_bounds(content, closed);
        assert(read_end == e);
        assert(read_begin == if b == 0 {
            0
        } else {
            b - 1
        });
        assert forall|k: int| 0 <= k < self.chunks@.len() implies #[trigger] self.stands_before(
            k,
            inc,
        ) || self.stands_after(k, inc) || self.stands_inside(k, inc) by {
            let chunk = self.chunks@[k];
            let last = chunk.rows@.len() - 1;
            assert(chunk.agrees_with(file));
            self.lemma_row_bounds(k, 0);
            self.lemma_row_bounds(k, last);
            self.lemma_row_is_file_line(file, k, last);
            if chunk.offset_begin < inc.begin && chunk.offset_end > inc.begin {
                // the chunk would start at a line break before the first of the bytes
                assert(!self.covered_by(k, b));
                let at = chunk.offset_begin - 1 - read_begin;
                assert(file[chunk.offset_begin - 1] == content[at]);
            } else if chunk.offset_end > inc.end && chunk.offset_begin < inc.end {
                // the chunk would end at a line break after the last of the bytes
                if chunk.offset_end > e {
                    assert(self.covered_by(k, e - 1));
                    assert(self.covered_by(k, e));
                    if !self.covered(end) {
                        assert(e == end);
                    }
                }
                if !cover_end {
                    let at = chunk.offset_end - 1 - read_begin;
                    assert(file[chunk.offset_end - 1] == content[at]);
                }
            }
        }
    }

    /// A document that agrees with a file, and takes note of the size and
    /// the tail of that file after it has grown, agrees with the grown
    /// file and keeps its chunks.
    pub proof fn lemma_refresh_keeps_agreement(
        &self,
        after: &Document,
        file: Seq<u8>,
        grown: Seq<u8>,
        document_size: usize,
        tail: Seq<u8>,
        updated: Result<bool, LoadError>,
    )
        requires
            self.wf(),
            after.wf(),
            self.agrees_with(file),
            file.len() <= grown.len() == document_size,
            grown.subrange(0, file.len() as int) == file,
            Self::spec_tail_window(document_size) matches Some((read_begin, read_end))
                ==> tail == grown.subrange(read_begin as int, read_end as int),
            self.refreshed(after, document_size, tail, updated),
            updated is Ok,
        ensures
            after.agrees_with(grown),
            after.chunks == self.chunks,
    {
        assert forall|j: int| 0 <= j < file.len() implies file[j] == grown[j] by {
            assert(grown.subrange(0, file.len() as int)[j] == grown[j]);
        }
        if document_size == self.document_size {
            assert(grown =~= file);
        } else {
            let (read_begin, read_end) = Self::spec_tail_window(document_size)->0;
            let content = taken(tail, read_begin as int, read_end as int);
            assert(content =~= tail);
            lemma_incoming_last_line_in_file(content, read_begin as int, grown);
            let line = after.last_line@;
            let start = grown.len() - line.len();
            assert forall|j: int| start <= j < grown.len() - 1 implies grown[j] != LINE_BREAK by {
                assert(grown[j] == line[j - start]);
            }
            lemma_line_start_of_is(grown, start, grown.len() - 1);
            let old_start = self.last_line_start();
            assert(is_line_start(grown, old_start));
            lemma_line_start_before_tail(grown, old_start);
            assert(self.fits_before(start));
            assert forall|k: int| 0 <= k < after.chunks@.len() implies (
            #[trigger] after.chunks@[k]).agrees_with(grown) by {
                let chunk = self.chunks@[k];
                assert(chunk.agrees_with(file));
                assert forall|i: int| 0 <= i < chunk.rows@.len() implies {
                    &&& #[trigger] chunk.lines()[i] == line_from(grown, chunk.row_start(i))
                    &&& next_break(grown, chunk.row_start(i)) < grown.len()
                } by {
                    let from = chunk.row_start(i);
                    self.lemma_row_bounds(k, i);
                    lemma_next_break_bounds(file, from);
                    let stop = next_break(file, from);
                    lemma_next_break_is(grown, from, stop);
                    assert(line_from(grown, from) =~= line_from(file, from));
                }
            }
        }
    }

    /// True when the timestamps of the lines of `file` before its last
    /// line never go back: of two such lines that start with a timestamp
    /// in the format of the document, the later line has reached the
    /// timestamp of the earlier one.
    pub open spec fn file_stamps_ordered(&self, file: Seq<u8>) -> bool {
        forall|a: int, b: int|
            #![trigger is_line_start(file, a), is_line_start(file, b)]
            is_line_start(file, a) && is_line_start(file, b) && a <= b < tail_start(file)
                ==> match (
                self.timestamp_of(line_from(file, a)),
                self.timestamp_of(line_from(file, b)),
            ) {
                (Some(first), Some(second)) => numbers_reached(second, first),
                _ => true,
            }
    }

    /// True when no line of `file` that starts before `offset` and before
    /// the last line has reached `target`.
    pub open spec fn none_late_in_file(
        &self,
        file: Seq<u8>,
        target: LogDateTime,
        offset: int,
    ) -> bool {
        forall|start: int| #[trigger]
            is_line_start(file, start) && start < offset && start < tail_start(file)
                ==> !self.is_late(line_from(file, start), target)
    }

    /// A line of the file that starts within a run of loaded lines is one
    /// of them.
    pub proof fn lemma_run_holds_file_start(
        &self,
        file: Seq<u8>,
        target: LogDateTime,
        from: int,
        to: int,
        start: int,
    )
        requires
            self.wf(),
            self.agrees_with(file),
            self.early_run(target, from, to),
            from <= start < to,
            is_line_start(file, start),
        ensures
            self.line_known(start),
            self.line_at(start) == line_from(file, start),
        decreases to - from,
    {
        let (k, i) = choose|k: int, i: int| self.holds_line(k, i, from);
        self.lemma_line_unique(k, i, from);
        self.lemma_row_is_file_line(file, k, i);
        self.lemma_row_bounds(k, i);
        let next = from + self.line_at(from).len() + 1;
        if start > from {
            lemma_next_break_bounds(file, from);
            if start < next {
                assert(file[start - 1] == LINE_BREAK);
                assert(false);
            }
            self.lemma_run_holds_file_start(file, target, next, to, start);
        }
    }

    /// The jump to a timestamp finds the first line of the file that has
    /// reached it: where the document agrees with a file whose timestamps
    /// never go back, no line of the file before the end of an anchored run
    /// of early lines has reached the date and time.
    pub proof fn lemma_jump_is_first_in_file(
        &self,
        file: Seq<u8>,
        target: LogDateTime,
        offset: int,
    )
        requires
            self.wf(),
            self.agrees_with(file),
            self.file_stamps_ordered(file),
            self.early_before(target, offset),
        ensures
            self.none_late_in_file(file, target, offset),
    {
        let from = choose|from: int|
            from <= offset && #[trigger] self.early_run(target, from, offset) && self.run_anchored(
                target,
                from,
            );
        self.lemma_last_line_is_tail(file);
        assert forall|start: int| #[trigger]
            is_line_start(file, start) && start < offset && start < tail_start(
                file,
            ) implies !self.is_late(line_from(file, start), target) by {
            if start >= from {
                self.lemma_run_holds_file_start(file, target, from, offset, start);
                self.lemma_early_run_holds(target, from, offset, start);
            } else {
                let early = choose|early: int|
                    {
                        &&& #[trigger] self.line_known(early)
                        &&& from <= early
                        &&& self.timestamp_of(self.line_at(early)) is Some
                        &&& !self.is_late(self.line_at(early), target)
                    };
                let (k, i) = choose|k: int, i: int| self.holds_line(k, i, early);
                self.lemma_line_unique(k, i, early);
                self.lemma_row_is_file_line(file, k, i);
                self.lemma_row_bounds(k, i);
                assert(is_line_start(file, start) && is_line_start(file, early) && start <= early
                    < tail_start(file));
            }
        }
    }

    /// A load from a file that the document agrees with, handed the bytes
    /// of the whole window, fails only where the bytes are not text in
    /// UTF-8 or hold no line boundary to cut at; either way it keeps the
    /// document in agreement with the file.
    pub proof fn lemma_agreeing_load_outcome(
        &self,
        after: &Document,
        file: Seq<u8>,
        offset_begin: int,
        offset_end: int,
        bytes: Seq<u8>,
        loaded: Result<Option<usize>, LoadError>,
        read_begin: usize,
        read_end: usize,
    )
        requires
            self.wf(),
            after.wf(),
            self.agrees_with(file),
            0 <= offset_begin < offset_end,
            offset_begin < self.document_size,
            self.spec_plan(offset_begin, offset_end) == Some((read_begin, read_end)),
            bytes.len() >= read_end - read_begin,
            self.read_from(file, offset_begin, offset_end, bytes),
            self.loads(after, offset_begin, offset_end, bytes, loaded),
        ensures
            after.agrees_with(file),
            loaded != Err::<Option<usize>, LoadError>(LoadError::Inconsistent),
            loaded != Err::<Option<usize>, LoadError>(LoadError::NothingRead),
            loaded is Ok <==> valid_utf8(taken(bytes, read_begin as int, read_end as int))
                && readable(
                taken(bytes, read_begin as int, read_end as int),
                read_begin as int,
                read_end >= self.document_size,
            ),
    {
        self.lemma_load_keeps_agreement(after, file, offset_begin, offset_end, bytes, loaded);
        if readable(
            taken(bytes, read_begin as int, read_end as int),
            read_begin as int,
            read_end >= self.document_size,
        ) {
            self.lemma_agreeing_load_is_accepted(
                file,
                offset_begin,
                offset_end,
                bytes,
                read_begin,
                read_end,
            );
        }
    }
}

} // verus!
