//! The document: the loaded chunks of a file, kept in order and apart, and
//! the last line of the file, kept beside them. The document never reads the
//! file itself: it says which bytes it needs and is handed them.

use crate::chunk::{find_break, lines_of, Chunk};
use crate::log_timestamp::{
    datetime_prefix, detect_log_timstamp_format, parse_datetime_prefix, spec_detect, LogDate,
    LogDateTime, LogTime,
};
use crate::text::{
    complete_lines, has_break, lemma_complete_lines, lemma_next_break_bounds,
    lemma_span_monotone, lemma_span_prefix, next_break, span, total_span, unbroken, LINE_BREAK,
};
use vstd::prelude::*;
use vstd::slice::{slice_subrange, slice_to_vec};
use vstd::utf8::valid_utf8;

verus! {

/// The number of bytes that one load asks for.
pub const DEFAULT_CHUNK_SIZE: usize = 65536;

/// The answer to a query: the result, or the offset of the first byte that
/// the query needs and no loaded chunk covers.
#[derive(Debug, PartialEq, Eq)]
pub enum Fetch<T> {
    Ready(T),
    Missing(usize),
}

/// Why the bytes handed to a load were not taken in.
#[derive(Debug, Clone, Copy, PartialEq, Eq, Structural)]
pub enum LoadError {
    /// No byte was handed over.
    NothingRead,
    /// The bytes are not text in UTF-8.
    InvalidUtf8,
    /// The bytes hold no complete line: a line reaches over the whole window.
    LineTooLong,
    /// The lines in the bytes cut across chunks that are already loaded.
    Inconsistent,
}

/// Tells whether `bytes` are text in UTF-8, with `std::str::from_utf8`,
/// which succeeds on exactly such bytes.
#[verifier::external_body]
fn is_utf8(bytes: &[u8]) -> (valid: bool)
    ensures
        valid == valid_utf8(bytes@),
{
    std::str::from_utf8(bytes).is_ok()
}

/// What one read adds to a document: the span of complete lines it brings
/// and, where it reaches the end of the file, the last line.
pub ghost struct Incoming {
    pub begin: int,
    pub end: int,
    pub lines: Seq<Seq<u8>>,
    pub last_line: Option<Seq<u8>>,
}

/// The loaded part of a file.
#[derive(Debug)]
pub struct Document {
    pub chunks: Vec<Chunk>,
    /// The format in which the lines of the file start with a timestamp,
    /// once it was looked for and found.
    pub log_timestamp_format: Option<String>,
    /// The date of the first timestamp found, which stands for the date
    /// where only a time is asked for.
    pub log_default_date: Option<LogDate>,
    pub last_line: Vec<u8>,
    pub document_size: usize,
    pub default_chunk_size: usize,
}

/// True when `text` is a line without line break, or such a line with one
/// line break after it.
pub open spec fn is_last_line(text: Seq<u8>) -> bool {
    forall|j: int| 0 <= j < text.len() - 1 ==> text[j] != LINE_BREAK
}

/// The bytes of `bytes` that a read of the window from `read_begin` to
/// `read_end` takes.
pub open spec fn taken(bytes: Seq<u8>, read_begin: int, read_end: int) -> Seq<u8> {
    if bytes.len() < read_end - read_begin {
        bytes
    } else {
        bytes.subrange(0, read_end - read_begin)
    }
}

/// True when `content`, read at `read_begin`, holds the line boundaries that
/// a load needs: a line break to start after, unless it was read at the
/// start of the file, and a last line where it covers the end of the file.
pub open spec fn readable(content: Seq<u8>, read_begin: int, cover_end: bool) -> bool {
    &&& read_begin > 0 ==> has_break(content)
    &&& cover_end ==> Chunk::split(content, read_begin > 0, false).len() > 0
}

/// What `content`, read at `read_begin`, adds to a document.
pub open spec fn incoming(content: Seq<u8>, read_begin: int, cover_end: bool) -> Incoming {
    let drop_first = read_begin > 0;
    let rows = Chunk::split(content, drop_first, !cover_end);
    let begin = read_begin + Chunk::skipped(content, drop_first);
    let consumed = read_begin + Chunk::consumed(content, drop_first, !cover_end);
    if cover_end {
        let last_line = if content.last() == LINE_BREAK {
            rows.last().push(LINE_BREAK)
        } else {
            rows.last()
        };
        Incoming {
            begin,
            end: consumed - last_line.len(),
            lines: rows.drop_last(),
            last_line: Some(last_line),
        }
    } else {
        Incoming { begin, end: consumed, lines: rows, last_line: None }
    }
}

/// The lines `prefix` put before the lines of `rest`, where `rest` is ready.
pub open spec fn prepend(prefix: Seq<Seq<u8>>, rest: Fetch<Seq<Seq<u8>>>) -> Fetch<Seq<Seq<u8>>> {
    match rest {
        Fetch::Ready(lines) => Fetch::Ready(prefix + lines),
        Fetch::Missing(offset) => Fetch::Missing(offset),
    }
}

/// The distance `rest` with `step` added, where `rest` is ready.
pub open spec fn advance(step: int, rest: Fetch<int>) -> Fetch<int> {
    match rest {
        Fetch::Ready(distance) => Fetch::Ready(step + distance),
        Fetch::Missing(offset) => Fetch::Missing(offset),
    }
}

/// What a chunk and a last line, built from one read, add to a document.
pub open spec fn brought(chunk: Chunk, last_line: Option<Vec<u8>>) -> Incoming {
    Incoming {
        begin: chunk.offset_begin as int,
        end: chunk.offset_end as int,
        lines: chunk.lines(),
        last_line: match last_line {
            Some(line) => Some(line@),
            None => None,
        },
    }
}

/// Puts `chunk` in place of the chunks from index `i` up to index `j`.
pub fn replace_run(chunks: &mut Vec<Chunk>, i: usize, j: usize, chunk: Chunk)
    requires
        i <= j <= old(chunks)@.len(),
    ensures
        final(chunks)@ =~= old(chunks)@.subrange(0, i as int).push(chunk) + old(chunks)@.subrange(
            j as int,
            old(chunks)@.len() as int,
        ),
        final(chunks)@.len() == old(chunks)@.len() - (j - i) + 1,
        final(chunks)@[i as int] == chunk,
{
    let ghost before = chunks@;
    let mut removed: usize = 0;
    while removed < j - i
        invariant
            i <= j <= before.len(),
            removed <= j - i,
            chunks@ =~= before.subrange(0, i as int) + before.subrange(
                i + removed,
                before.len() as int,
            ),
        decreases j - i - removed,
    {
        chunks.remove(i);
        removed += 1;
    }
    chunks.insert(i, chunk);
}

impl Document {
    /// The offset at which the last line starts.
    pub open spec fn last_line_start(&self) -> int {
        self.document_size - self.last_line@.len()
    }

    /// True when chunk `k` covers `offset`.
    pub open spec fn covered_by(&self, k: int, offset: int) -> bool {
        self.chunks@[k].offset_begin <= offset < self.chunks@[k].offset_end
    }

    /// True when `offset` lies after the chunks before chunk `k` and before
    /// chunk `k`, or after all chunks where `k` is their number.
    pub open spec fn falls_before(&self, k: int, offset: int) -> bool {
        &&& 0 <= k <= self.chunks@.len()
        &&& forall|j: int| 0 <= j < k ==> self.chunks@[j].offset_end <= offset
        &&& k < self.chunks@.len() ==> offset < self.chunks@[k].offset_begin
    }

    /// True when a loaded chunk covers `offset`.
    pub open spec fn covered(&self, offset: int) -> bool {
        exists|k: int| 0 <= k < self.chunks@.len() && #[trigger] self.covered_by(k, offset)
    }

    /// The invariant of a document: each chunk holds at least one row and
    /// ends after the line break of its last row; the chunks stand in the
    /// order of their offsets and do not overlap; none reaches into the last
    /// line.
    pub open spec fn wf(&self) -> bool {
        &&& self.last_line@.len() <= self.document_size
        &&& is_last_line(self.last_line@)
        &&& self.default_chunk_size >= 2
        &&& self.log_timestamp_format is Some <==> self.log_default_date is Some
        &&& forall|k: int|
            0 <= k < self.chunks@.len() ==> {
                &&& (#[trigger] self.chunks@[k]).wf()
                &&& self.chunks@[k].ends_at_break()
                &&& self.chunks@[k].rows@.len() > 0
                &&& self.chunks@[k].offset_end <= self.last_line_start()
            }
        &&& forall|j: int, k: int|
            0 <= j < k < self.chunks@.len() ==> (#[trigger] self.chunks@[j]).offset_end <= (
            #[trigger] self.chunks@[k]).offset_begin
    }

    /// True when `to` is the first offset at or after `from` that no chunk
    /// covers.
    pub open spec fn forward_slide(&self, from: int, to: int) -> bool {
        &&& from <= to
        &&& !self.covered(to)
        &&& forall|x: int| from <= x < to ==> self.covered(x)
    }

    /// True when `to` is where an interval that ends at `from` has to end
    /// instead to stay clear of the chunks: `from` itself where no chunk
    /// covers it, else the start of the run of covered offsets that `from`
    /// stands in.
    pub open spec fn backward_slide(&self, from: int, to: int) -> bool {
        &&& to <= from
        &&& forall|x: int| to <= x < from ==> self.covered(x)
        &&& if self.covered(from) {
            !self.covered(to - 1)
        } else {
            to == from
        }
    }

    /// The first offset at or after `from` that no chunk covers.
    pub open spec fn slid_begin(&self, from: int) -> int {
        choose|to: int| self.forward_slide(from, to)
    }

    /// The end of an interval that was to end at `from`, moved clear of the
    /// chunks.
    pub open spec fn slid_end(&self, from: int) -> int {
        choose|to: int| self.backward_slide(from, to)
    }

    /// The window of the file that a load of the interval from
    /// `offset_begin` to `offset_end` reads: the interval, cut at the end of
    /// the file, moved clear of the chunks at both ends, and extended by one
    /// byte to the left so that the line broken by the cut can be told.
    /// `None` where nothing is left of the interval.
    pub open spec fn spec_plan(
        &self,
        offset_begin: int,
        offset_end: int,
    ) -> Option<(usize, usize)> {
        let end = if offset_end < self.document_size {
            offset_end
        } else {
            self.document_size as int
        };
        let b = self.slid_begin(offset_begin);
        let e = self.slid_end(end);
        if b >= e {
            None
        } else if b == 0 {
            Some((0usize, e as usize))
        } else {
            Some(((b - 1) as usize, e as usize))
        }
    }

    pub proof fn lemma_forward_slide_unique(&self, from: int, a: int, b: int)
        requires
            self.forward_slide(from, a),
            self.forward_slide(from, b),
        ensures
            a == b,
    {
    }

    pub proof fn lemma_backward_slide_unique(&self, from: int, a: int, b: int)
        requires
            self.backward_slide(from, a),
            self.backward_slide(from, b),
        ensures
            a == b,
    {
        if a < b {
            assert(self.covered(b - 1));
        } else if b < a {
            assert(self.covered(a - 1));
        }
    }

    /// In a well-formed document an offset that chunk `k` does not cover,
    /// and that lies between the chunk before it and the chunk after it, is
    /// covered by no chunk.
    pub proof fn lemma_gap(&self, k: int, offset: int)
        requires
            self.wf(),
            0 <= k <= self.chunks@.len(),
            k > 0 ==> self.chunks@[k - 1].offset_end <= offset,
            k < self.chunks@.len() ==> offset < self.chunks@[k].offset_begin,
        ensures
            !self.covered(offset),
    {
        if self.covered(offset) {
            let j = choose|j: int| 0 <= j < self.chunks@.len()
                && #[trigger] self.covered_by(j, offset);
            if j < k - 1 {
                assert(self.chunks@[j].offset_end <= self.chunks@[k - 1].offset_begin);
                assert(self.chunks@[k - 1].wf());
            } else if j > k {
                assert(self.chunks@[k].offset_end <= self.chunks@[j].offset_begin);
                assert(self.chunks@[k].wf());
            }
        }
    }

    /// The offset at which the last line starts.
    pub fn last_line_start_offset(&self) -> (offset: usize)
        requires
            self.last_line@.len() <= self.document_size,
        ensures
            offset == self.document_size - self.last_line@.len(),
            offset == self.last_line_start(),
    {
        self.document_size - self.last_line.len()
    }

    /// How far into the document `offset` lies, in hundredths of the offset
    /// of the last line; 100 where the last line starts the document.
    pub fn percent_ratio_of_offset(&self, offset: usize) -> (ratio: usize)
        requires
            self.last_line@.len() <= self.document_size,
            offset <= self.last_line_start(),
        ensures
            ratio == if self.last_line_start() == 0 {
                100
            } else {
                offset * 100 / self.last_line_start()
            },
            ratio <= 100,
    {
        let start = self.last_line_start_offset();
        if start == 0 {
            100
        } else {
            let hundredths = (offset as u128) * 100 / (start as u128);
            assert(offset * 100 / (start as int) <= 100) by (nonlinear_arith)
                requires
                    0 <= offset <= start,
                    0 < start,
            ;
            hundredths as usize
        }
    }

    /// The index of the chunk that covers `offset`, found by walking the
    /// chunks in order up to the first that ends after `offset`.
    pub fn get_chunk_index_by_offset(&self, offset: usize) -> (index: Option<usize>)
        ensures
            match index {
                Some(k) => k < self.chunks@.len() && self.covered_by(k as int, offset as int)
                    && forall|j: int| 0 <= j < k ==> self.chunks@[j].offset_end <= offset,
                None => exists|k: int| self.falls_before(k, offset as int),
            },
            self.wf() ==> (index is Some <==> self.covered(offset as int)),
    {
        let mut index: usize = 0;
        while index < self.chunks.len()
            invariant
                index <= self.chunks@.len(),
                forall|j: int| 0 <= j < index ==> self.chunks@[j].offset_end <= offset,
            decreases self.chunks@.len() - index,
        {
            if offset >= self.chunks[index].offset_end {
                index += 1;
                continue ;
            }
            if offset >= self.chunks[index].offset_begin {
                assert(self.covered_by(index as int, offset as int));
                return Some(index);
            }
            proof {
                assert(self.falls_before(index as int, offset as int));
                if self.wf() {
                    self.lemma_gap(index as int, offset as int);
                }
            }
            return None;
        }
        proof {
            assert(self.falls_before(index as int, offset as int));
            if self.wf() {
                self.lemma_gap(index as int, offset as int);
            }
        }
        None
    }

    /// True when chunk `k` ends at or before `inc` begins.
    pub open spec fn stands_before(&self, k: int, inc: Incoming) -> bool {
        self.chunks@[k].offset_end <= inc.begin
    }

    /// True when chunk `k` begins at or after `inc` ends.
    pub open spec fn stands_after(&self, k: int, inc: Incoming) -> bool {
        self.chunks@[k].offset_begin >= inc.end
    }

    /// True when chunk `k` lies within the span of `inc`.
    pub open spec fn stands_inside(&self, k: int, inc: Incoming) -> bool {
        inc.begin <= self.chunks@[k].offset_begin && self.chunks@[k].offset_end <= inc.end
    }

    /// True when what a read brings fits the chunks that are loaded: its
    /// lines, if it has any, cut across no chunk, and its last line, if it
    /// has one, starts after every chunk that stays.
    pub open spec fn accepts(&self, inc: Incoming) -> bool {
        &&& inc.lines.len() > 0 ==> forall|k: int|
            0 <= k < self.chunks@.len() ==> #[trigger] self.stands_before(k, inc)
                || self.stands_after(k, inc) || self.stands_inside(k, inc)
        &&& inc.last_line is None ==> inc.end <= self.last_line_start()
        &&& inc.last_line matches Some(line) ==> forall|k: int|
            0 <= k < self.chunks@.len() ==> #[trigger] self.chunks@[k].offset_end
                <= self.document_size - line.len() || (inc.lines.len() > 0 && self.stands_inside(
                k,
                inc,
            ))
    }

    /// True when `after` holds the chunks of this document with those from
    /// `i` up to `j` replaced by one chunk that holds what `inc` brings.
    pub open spec fn spliced(&self, after: &Document, i: int, j: int, inc: Incoming) -> bool {
        &&& 0 <= i <= j <= self.chunks@.len()
        &&& forall|k: int| 0 <= k < i ==> self.stands_before(k, inc)
        &&& forall|k: int| i <= k < j ==> self.stands_inside(k, inc)
        &&& forall|k: int| j <= k < self.chunks@.len() ==> self.stands_after(k, inc)
        &&& after.chunks@.len() == self.chunks@.len() - (j - i) + 1
        &&& after.chunks@ =~= self.chunks@.subrange(0, i).push(after.chunks@[i])
            + self.chunks@.subrange(j, self.chunks@.len() as int)
        &&& after.chunks@[i].offset_begin == inc.begin
        &&& after.chunks@[i].offset_end == inc.end
        &&& after.chunks@[i].lines() == inc.lines
    }

    /// What a load of the interval from `offset_begin` to `offset_end` does
    /// when it is handed `bytes` as the content of its window: the document
    /// `after` it and the result `loaded`.
    pub open spec fn loads(
        &self,
        after: &Document,
        offset_begin: int,
        offset_end: int,
        bytes: Seq<u8>,
        loaded: Result<Option<usize>, LoadError>,
    ) -> bool {
        &&& after.document_size == self.document_size
        &&& after.default_chunk_size == self.default_chunk_size
        &&& after.log_timestamp_format == self.log_timestamp_format
        &&& after.log_default_date == self.log_default_date
        &&& loaded is Err ==> *after == *self
        &&& match self.spec_plan(offset_begin, offset_end) {
            None => loaded == Ok::<Option<usize>, LoadError>(None) && *after == *self,
            Some((read_begin, read_end)) => {
                let cover_end = read_end >= self.document_size;
                let content = taken(bytes, read_begin as int, read_end as int);
                let inc = incoming(content, read_begin as int, cover_end);
                if bytes.len() == 0 {
                    loaded == Err::<Option<usize>, LoadError>(LoadError::NothingRead)
                } else if !valid_utf8(content) {
                    loaded == Err::<Option<usize>, LoadError>(LoadError::InvalidUtf8)
                } else if !readable(content, read_begin as int, cover_end) {
                    loaded == Err::<Option<usize>, LoadError>(LoadError::LineTooLong)
                } else if !self.accepts(inc) {
                    loaded == Err::<Option<usize>, LoadError>(LoadError::Inconsistent)
                } else {
                    &&& after.last_line@ == match inc.last_line {
                        Some(line) => line,
                        None => self.last_line@,
                    }
                    &&& match loaded {
                        Ok(None) => inc.lines.len() == 0 && after.chunks@ == self.chunks@,
                        Ok(Some(i)) => inc.lines.len() > 0 && exists|j: int|
                            self.spliced(after, i as int, j, inc),
                        Err(_) => false,
                    }
                }
            },
        }
    }

    /// The window of the file to read for a load of the interval from
    /// `offset_begin` to `offset_end`, or `None` where the chunks already
    /// hold all of it.
    pub fn plan_load(&self, offset_begin: usize, offset_end: usize) -> (plan: Option<
        (usize, usize),
    >)
        requires
            self.wf(),
            offset_begin < offset_end,
            offset_begin < self.document_size,
        ensures
            plan == self.spec_plan(offset_begin as int, offset_end as int),
            plan matches Some((read_begin, read_end)) ==> read_begin < read_end
                <= self.document_size,
    {
        let ghost from_begin = offset_begin as int;
        let mut offset_begin = offset_begin;
        let mut offset_end = if offset_end < self.document_size {
            offset_end
        } else {
            self.document_size
        };
        let ghost from_end = offset_end as int;
        let chunk_count = self.chunks.len();

        if let Some(chunk_index_begin) = self.get_chunk_index_by_offset(offset_begin) {
            let mut index = chunk_index_begin;
            while index < chunk_count
                invariant
                    self.wf(),
                    chunk_count == self.chunks@.len(),
                    chunk_index_begin <= index <= chunk_count,
                    chunk_index_begin < chunk_count,
                    from_begin <= offset_begin,
                    forall|x: int| from_begin <= x < offset_begin ==> self.covered(x),
                    index == chunk_index_begin
                        ==> self.covered_by(index as int, offset_begin as int),
                    index > chunk_index_begin ==> offset_begin == self.chunks@[index
                        - 1].offset_end,
                ensures
                    chunk_index_begin < index <= chunk_count,
                    from_begin <= offset_begin,
                    forall|x: int| from_begin <= x < offset_begin ==> self.covered(x),
                    offset_begin == self.chunks@[index - 1].offset_end,
                    index < chunk_count ==> offset_begin < self.chunks@[index as int].offset_begin,
                decreases chunk_count - index,
            {
                if offset_begin < self.chunks[index].offset_begin {
                    break ;
                }
                proof {
                    let before = offset_begin as int;
                    let chunk = self.chunks@[index as int];
                    assert(chunk.wf());
                    if index > chunk_index_begin {
                        assert(self.chunks@[index - 1].offset_end <= chunk.offset_begin);
                    }
                    assert forall|x: int| before <= x < chunk.offset_end implies self.covered(
                        x,
                    ) by {
                        assert(self.covered_by(index as int, x));
                    }
                }
                offset_begin = self.chunks[index].offset_end;
                index += 1;
            }
            proof {
                self.lemma_gap(index as int, offset_begin as int);
            }
        }
        assert(self.forward_slide(from_begin, offset_begin as int));

        if let Some(chunk_index_end) = self.get_chunk_index_by_offset(offset_end) {
            let mut next: usize = chunk_index_end + 1;
            while next > 0
                invariant
                    self.wf(),
                    chunk_count == self.chunks@.len(),
                    next <= chunk_index_end + 1 <= chunk_count,
                    offset_end <= from_end,
                    self.covered(from_end),
                    forall|x: int| offset_end <= x < from_end ==> self.covered(x),
                    next == chunk_index_end + 1 ==> self.covered_by(
                        chunk_index_end as int,
                        offset_end as int,
                    ),
                    next <= chunk_index_end
                        ==> offset_end == self.chunks@[next as int].offset_begin,
                ensures
                    next <= chunk_index_end,
                    offset_end <= from_end,
                    forall|x: int| offset_end <= x < from_end ==> self.covered(x),
                    offset_end == self.chunks@[next as int].offset_begin,
                    next > 0 ==> offset_end > self.chunks@[next - 1].offset_end,
                decreases next,
            {
                let index = next - 1;
                if offset_end > self.chunks[index].offset_end {
                    break ;
                }
                proof {
                    let before = offset_end as int;
                    let chunk = self.chunks@[index as int];
                    assert(chunk.wf());
                    if next <= chunk_index_end {
                        assert(chunk.offset_end <= self.chunks@[next as int].offset_begin);
                    }
                    assert forall|x: int| chunk.offset_begin <= x < before implies self.covered(
                        x,
                    ) by {
                        assert(self.covered_by(index as int, x));
                    }
                }
                offset_end = self.chunks[index].offset_begin;
                next = index;
            }
            proof {
                self.lemma_gap(next as int, offset_end - 1);
            }
        }
        assert(self.backward_slide(from_end, offset_end as int));
        proof {
            self.lemma_forward_slide_unique(
                from_begin,
                offset_begin as int,
                self.slid_begin(from_begin),
            );
            self.lemma_backward_slide_unique(from_end, offset_end as int, self.slid_end(from_end));
        }
        if offset_begin >= offset_end {
            return None;
        }
        if offset_begin > 0 {
            offset_begin = offset_begin - 1;
        }
        Some((offset_begin, offset_end))
    }


    /// Builds what `content`, read at `read_begin`, adds to a document: the
    /// chunk of its complete lines and, where it covers the end of the file,
    /// the last line.
    pub fn take_in(content: &[u8], read_begin: usize, cover_end: bool) -> (taken_in: Result<
        (Chunk, Option<Vec<u8>>),
        LoadError,
    >)
        requires
            content@.len() > 0,
            read_begin + content@.len() <= usize::MAX,
        ensures
            taken_in is Ok <==> readable(content@, read_begin as int, cover_end),
            taken_in matches Err(e) ==> e == LoadError::LineTooLong,
            taken_in matches Ok((chunk, last_line)) ==> {
                let inc = incoming(content@, read_begin as int, cover_end);
                &&& chunk.wf()
                &&& chunk.ends_at_break()
                &&& chunk.offset_begin == inc.begin
                &&& chunk.offset_end == inc.end
                &&& chunk.lines() == inc.lines
                &&& read_begin <= inc.begin <= inc.end
                &&& match last_line {
                    Some(line) => inc.last_line == Some(line@) && is_last_line(line@) && cover_end
                        && line@.len() > 0 && inc.end + line@.len() <= read_begin
                        + content@.len(),
                    None => inc.last_line is None && !cover_end && inc.end <= read_begin
                        + content@.len(),
                }
            },
    {
        // drop first unless loading chunk starting from the first byte
        let drop_first = read_begin > 0;
        if drop_first && find_break(content, 0) >= content.len() {
            return Err(LoadError::LineTooLong);
        }
        let ghost skip = Chunk::skipped(content@, drop_first);
        proof {
            lemma_next_break_bounds(content@, 0);
            lemma_complete_lines(content@, skip);
            lemma_next_break_bounds(content@, skip + total_span(complete_lines(content@, skip)));
        }
        let mut new_chunk = Chunk::build_chunk(content, read_begin, drop_first, !cover_end);
        if !cover_end {
            return Ok((new_chunk, None));
        }
        let ghost built = new_chunk;
        match new_chunk.rows.pop() {
            None => Err(LoadError::LineTooLong),
            Some(last_row) => {
                let mut last_line = last_row;
                proof {
                    let rows = built.lines();
                    assert(last_line@ == rows.last());
                    assert(new_chunk.lines() =~= rows.drop_last());
                    lemma_span_prefix(rows, rows.drop_last(), rows.len() - 1);
                    assert(unbroken(rows[rows.len() - 1]));
                    lemma_span_monotone(new_chunk.lines(), 0, new_chunk.lines().len() as int);
                }
                if content[content.len() - 1] == LINE_BREAK {
                    last_line.push(LINE_BREAK);
                }
                new_chunk.offset_end = new_chunk.offset_end - last_line.len();
                Ok((new_chunk, Some(last_line)))
            },
        }
    }

    /// A well-formed document stays well formed when a run of its chunks
    /// gives way to one chunk that stands between the chunks around the run.
    pub proof fn lemma_splice_wf(&self, after: &Document, i: int, j: int, chunk: Chunk)
        requires
            self.wf(),
            chunk.wf(),
            chunk.ends_at_break(),
            chunk.rows@.len() > 0,
            0 <= i <= j <= self.chunks@.len(),
            after.chunks@ =~= self.chunks@.subrange(0, i).push(chunk) + self.chunks@.subrange(
                j,
                self.chunks@.len() as int,
            ),
            forall|k: int| 0 <= k < i ==> self.chunks@[k].offset_end <= chunk.offset_begin,
            forall|k: int|
                j <= k < self.chunks@.len() ==> self.chunks@[k].offset_begin >= chunk.offset_end,
            after.document_size == self.document_size,
            after.default_chunk_size == self.default_chunk_size,
            after.log_timestamp_format == self.log_timestamp_format,
            after.log_default_date == self.log_default_date,
            after.last_line@.len() <= after.document_size,
            is_last_line(after.last_line@),
            chunk.offset_end <= after.last_line_start(),
            forall|k: int|
                0 <= k < i || j <= k < self.chunks@.len() ==> self.chunks@[k].offset_end
                    <= after.last_line_start(),
        ensures
            after.wf(),
    {
        let shift = j - i - 1;
        assert(after.chunks@.len() == self.chunks@.len() - shift);
        assert forall|k: int| 0 <= k < after.chunks@.len() implies {
            &&& (#[trigger] after.chunks@[k]).wf()
            &&& after.chunks@[k].ends_at_break()
            &&& after.chunks@[k].rows@.len() > 0
            &&& after.chunks@[k].offset_end <= after.last_line_start()
        } by {
            if k < i {
                assert(after.chunks@[k] == self.chunks@[k]);
            } else if k > i {
                assert(after.chunks@[k] == self.chunks@[k + shift]);
            } else {
                assert(after.chunks@[k] == chunk);
            }
        }
        assert forall|a: int, b: int| 0 <= a < b < after.chunks@.len() implies (
        #[trigger] after.chunks@[a]).offset_end <= (#[trigger] after.chunks@[b]).offset_begin by {
            if a < i {
                assert(after.chunks@[a] == self.chunks@[a]);
            } else if a > i {
                assert(after.chunks@[a] == self.chunks@[a + shift]);
            } else {
                assert(after.chunks@[a] == chunk);
            }
            if b < i {
                assert(after.chunks@[b] == self.chunks@[b]);
            } else if b > i {
                assert(after.chunks@[b] == self.chunks@[b + shift]);
            } else {
                assert(after.chunks@[b] == chunk);
            }
        }
    }

    /// Puts what one read has brought into the document, where it fits the
    /// chunks that are loaded.
    #[verifier::rlimit(40)]
    pub fn put_in(&mut self, new_chunk: Chunk, new_last_line: Option<Vec<u8>>) -> (loaded: Result<
        Option<usize>,
        LoadError,
    >)
        requires
            old(self).wf(),
            new_chunk.wf(),
            new_chunk.ends_at_break(),
            new_last_line matches Some(line) ==> is_last_line(line@) && new_chunk.offset_end
                + line@.len() <= old(self).document_size,
        ensures
            final(self).wf(),
            final(self).document_size == old(self).document_size,
            final(self).default_chunk_size == old(self).default_chunk_size,
            final(self).log_timestamp_format == old(self).log_timestamp_format,
            final(self).log_default_date == old(self).log_default_date,
            loaded is Err ==> *final(self) == *old(self),
            !old(self).accepts(brought(new_chunk, new_last_line)) ==> loaded == Err::<
                Option<usize>,
                LoadError,
            >(LoadError::Inconsistent),
            old(self).accepts(brought(new_chunk, new_last_line)) ==> {
                &&& final(self).last_line@ == match new_last_line {
                    Some(line) => line@,
                    None => old(self).last_line@,
                }
                &&& match loaded {
                    Ok(None) => new_chunk.rows@.len() == 0
                        && final(self).chunks@ == old(self).chunks@,
                    Ok(Some(i)) => new_chunk.rows@.len() > 0 && exists|j: int|
                        old(self).spliced(final(self), i as int, j, brought(new_chunk, new_last_line)),
                    Err(_) => false,
                }
            },
    {
        let ghost inc = brought(new_chunk, new_last_line);
        let count = self.chunks.len();
        if new_last_line.is_none() && new_chunk.offset_end > self.last_line_start_offset() {
            return Err(LoadError::Inconsistent);
        }
        if new_chunk.rows.len() == 0 {
            if let Some(line) = new_last_line {
                if count > 0 && self.chunks[count - 1].offset_end > self.document_size
                    - line.len() {
                    return Err(LoadError::Inconsistent);
                }
                proof {
                    assert forall|k: int| 0 <= k < count implies #[trigger] self.chunks@[k].offset_end
                        <= self.document_size - line@.len() by {
                        if k < count - 1 {
                            assert(self.chunks@[k].offset_end <= self.chunks@[count
                                - 1].offset_begin);
                            assert(self.chunks@[count - 1].wf());
                        }
                    }
                }
                self.last_line = line;
            }
            return Ok(None);
        }
        let mut i: usize = 0;
        while i < count && self.chunks[i].offset_begin < new_chunk.offset_begin
            invariant
                count == self.chunks@.len(),
                i <= count,
                forall|k: int| 0 <= k < i ==> self.chunks@[k].offset_begin < new_chunk.offset_begin,
            decreases count - i,
        {
            i += 1;
        }
        let mut j: usize = i;
        while j < count && self.chunks[j].offset_end <= new_chunk.offset_end
            invariant
                count == self.chunks@.len(),
                i <= j <= count,
                forall|k: int| i <= k < j ==> self.chunks@[k].offset_end <= new_chunk.offset_end,
            decreases count - j,
        {
            j += 1;
        }
        proof {
            lemma_span_monotone(new_chunk.lines(), 0, new_chunk.lines().len() as int);
            assert forall|k: int| 0 <= k < count implies (#[trigger] self.chunks@[k]).offset_begin
                < self.chunks@[k].offset_end by {
                assert(self.chunks@[k].wf());
                lemma_span_monotone(self.chunks@[k].lines(), 0, self.chunks@[k].lines().len() as int);
            }
        }
        if i > 0 && self.chunks[i - 1].offset_end > new_chunk.offset_begin {
            assert(!self.stands_before(i - 1, inc) && !self.stands_after(i - 1, inc)
                && !self.stands_inside(i - 1, inc));
            return Err(LoadError::Inconsistent);
        }
        if j < count && self.chunks[j].offset_begin < new_chunk.offset_end {
            assert(!self.stands_before(j as int, inc) && !self.stands_after(j as int, inc)
                && !self.stands_inside(j as int, inc));
            return Err(LoadError::Inconsistent);
        }
        if let Some(line) = &new_last_line {
            if j < count && self.chunks[count - 1].offset_end > self.document_size - line.len() {
                proof {
                    if j < count - 1 {
                        assert(self.chunks@[j as int].offset_end <= self.chunks@[count
                            - 1].offset_begin);
                    }
                    assert(!self.stands_inside(count - 1, inc));
                }
                return Err(LoadError::Inconsistent);
            }
        }
        let ghost before = *self;
        proof {
            assert forall|k: int| 0 <= k < count implies if k < i {
                before.stands_before(k, inc)
            } else if k < j {
                before.stands_inside(k, inc)
            } else {
                before.stands_after(k, inc)
            } by {
                if k < i - 1 {
                    assert(before.chunks@[k].offset_end <= before.chunks@[i - 1].offset_begin);
                } else if i < k < j {
                    assert(before.chunks@[i as int].offset_end <= before.chunks@[k].offset_begin);
                } else if k > j {
                    assert(before.chunks@[j as int].offset_end <= before.chunks@[k].offset_begin);
                }
            }
            if let Some(line) = inc.last_line {
                assert forall|k: int| j <= k < count implies #[trigger] before.chunks@[k].offset_end
                    <= before.document_size - line.len() by {
                    if k < count - 1 {
                        assert(before.chunks@[k].offset_end <= before.chunks@[count
                            - 1].offset_begin);
                    }
                }
            }
            assert(before.accepts(inc));
        }
        if let Some(line) = new_last_line {
            self.last_line = line;
        }
        replace_run(&mut self.chunks, i, j, new_chunk);
        proof {
            before.lemma_splice_wf(self, i as int, j as int, new_chunk);
            assert(before.spliced(self, i as int, j as int, inc));
        }
        let loaded: Result<Option<usize>, LoadError> = Ok(Some(i));
        // the chunk stands at `i`, in place of the chunks up to `j`
        assert(exists|j: int| before.spliced(self, i as int, j, brought(new_chunk, new_last_line)));
        assert(loaded matches Ok(Some(at)) && at == i);
        loaded
    }

    /// Takes in `bytes`, the content of the window that `plan_load` gives for
    /// the interval from `offset_begin` to `offset_end`: builds a chunk of
    /// the complete lines in it, sets the last line where the window reaches
    /// the end of the file, and puts the chunk in place of the chunks that it
    /// spans. Returns the index of the new chunk, or `None` where no chunk
    /// was added. Bytes beyond the window are left out.
    pub fn load_chunk(&mut self, offset_begin: usize, offset_end: usize, bytes: &[u8]) -> (loaded:
        Result<Option<usize>, LoadError>)
        requires
            old(self).wf(),
            offset_begin < offset_end,
            offset_begin < old(self).document_size,
        ensures
            final(self).wf(),
            old(self).loads(final(self), offset_begin as int, offset_end as int, bytes@, loaded),
    {
        let plan = self.plan_load(offset_begin, offset_end);
        let (read_begin, read_end) = match plan {
            None => {
                return Ok(None);
            },
            Some(window) => window,
        };
        if bytes.len() == 0 {
            return Err(LoadError::NothingRead);
        }
        let window_len = read_end - read_begin;
        let take = if bytes.len() < window_len {
            bytes.len()
        } else {
            window_len
        };
        let content = slice_subrange(bytes, 0, take);
        assert(content@ =~= taken(bytes@, read_begin as int, read_end as int));
        if !is_utf8(content) {
            return Err(LoadError::InvalidUtf8);
        }
        let cover_end = read_end >= self.document_size;
        match Self::take_in(content, read_begin, cover_end) {
            Err(e) => Err(e),
            Ok((new_chunk, new_last_line)) => {
                assert(brought(new_chunk, new_last_line) == incoming(
                    content@,
                    read_begin as int,
                    cover_end,
                ));
                self.put_in(new_chunk, new_last_line)
            },
        }
    }

    /// True when row `i` of chunk `k` starts at `offset`.
    pub open spec fn holds_line(&self, k: int, i: int, offset: int) -> bool {
        &&& 0 <= k < self.chunks@.len()
        &&& 0 <= i < self.chunks@[k].rows@.len()
        &&& self.chunks@[k].row_start(i) == offset
    }

    /// True when a loaded line starts at `offset`.
    pub open spec fn line_known(&self, offset: int) -> bool {
        exists|k: int, i: int| self.holds_line(k, i, offset)
    }

    /// The loaded line that starts at `offset`.
    pub open spec fn line_at(&self, offset: int) -> Seq<u8> {
        let (k, i) = choose|k: int, i: int| self.holds_line(k, i, offset);
        self.chunks@[k].lines()[i]
    }

    /// The last line without the line break that may end it.
    pub open spec fn last_line_body(&self) -> Seq<u8> {
        if self.last_line@.len() > 0 && self.last_line@.last() == LINE_BREAK {
            self.last_line@.drop_last()
        } else {
            self.last_line@
        }
    }

    /// True when `offset` can start a query: it is the start of a loaded
    /// line, or no chunk covers it, or the last line starts at or before it.
    pub open spec fn at_line_start(&self, offset: int) -> bool {
        offset >= self.last_line_start() || !self.covered(offset) || self.line_known(offset)
    }

    /// Up to `line_count` lines from `offset` on, the last line of the file
    /// without its line break being the last of them; or the first offset
    /// on the way at which a line is needed that is not loaded.
    pub open spec fn lines_from(&self, offset: int, line_count: nat) -> Fetch<Seq<Seq<u8>>>
        decreases line_count,
    {
        if line_count == 0 {
            Fetch::Ready(Seq::empty())
        } else if offset >= self.last_line_start() {
            Fetch::Ready(seq![self.last_line_body()])
        } else if !self.line_known(offset) {
            Fetch::Missing(offset as usize)
        } else {
            let line = self.line_at(offset);
            prepend(seq![line], self.lines_from(offset + line.len() + 1, (line_count - 1) as nat))
        }
    }

    /// The bytes from `offset` to the start of the line `line_count` lines
    /// below it, or to the start of the last line where that comes first; or
    /// the first offset on the way at which a line is needed that is not
    /// loaded.
    pub open spec fn distance_below(&self, offset: int, line_count: nat) -> Fetch<int>
        decreases line_count,
    {
        if line_count == 0 || offset >= self.last_line_start() {
            Fetch::Ready(0)
        } else if !self.line_known(offset) {
            Fetch::Missing(offset as usize)
        } else {
            let line = self.line_at(offset);
            advance(
                line.len() as int + 1,
                self.distance_below(offset + line.len() + 1, (line_count - 1) as nat),
            )
        }
    }

    /// The start of a row lies in its chunk, before the last line, and the
    /// next row, or the end of the chunk, follows its line break.
    pub proof fn lemma_row_bounds(&self, k: int, i: int)
        requires
            self.wf(),
            0 <= k < self.chunks@.len(),
            0 <= i < self.chunks@[k].rows@.len(),
        ensures
            self.chunks@[k].offset_begin <= self.chunks@[k].row_start(i),
            self.chunks@[k].row_start(i + 1) == self.chunks@[k].row_start(i)
                + self.chunks@[k].lines()[i].len() + 1,
            self.chunks@[k].row_start(i + 1) <= self.chunks@[k].offset_end,
            self.chunks@[k].row_start(i) < self.last_line_start(),
            self.chunks@[k].row_start(self.chunks@[k].rows@.len() as int)
                == self.chunks@[k].offset_end,
            self.covered_by(k, self.chunks@[k].row_start(i)),
            self.covered_by(k, self.chunks@[k].row_start(i + 1) - 1),
    {
        let chunk = self.chunks@[k];
        assert(chunk.wf());
        lemma_span_monotone(chunk.lines(), 0, i);
        lemma_span_monotone(chunk.lines(), i + 1, chunk.lines().len() as int);
    }

    /// The start of a loaded line is covered by a chunk.
    pub proof fn lemma_known_is_covered(&self, offset: int)
        requires
            self.wf(),
        ensures
            self.line_known(offset) ==> self.covered(offset),
    {
        if self.line_known(offset) {
            let (k, i) = choose|k: int, i: int| self.holds_line(k, i, offset);
            self.lemma_row_bounds(k, i);
        }
    }

    /// At most one loaded line starts at an offset.
    pub proof fn lemma_line_unique(&self, k: int, i: int, offset: int)
        requires
            self.wf(),
            self.holds_line(k, i, offset),
        ensures
            self.line_known(offset),
            self.line_at(offset) == self.chunks@[k].lines()[i],
            forall|m: int, j: int| self.holds_line(m, j, offset) ==> m == k && j == i,
    {
        assert forall|m: int, j: int| self.holds_line(m, j, offset) implies m == k && j == i by {
            self.lemma_row_bounds(k, i);
            self.lemma_row_bounds(m, j);
            if m < k {
                assert(self.chunks@[m].offset_end <= self.chunks@[k].offset_begin);
            } else if k < m {
                assert(self.chunks@[k].offset_end <= self.chunks@[m].offset_begin);
            } else if j < i {
                lemma_span_monotone(self.chunks@[k].lines(), j + 1, i);
            } else if i < j {
                lemma_span_monotone(self.chunks@[k].lines(), i + 1, j);
            }
        }
    }

    /// A covered offset at which a chunk ends is the start of the first row
    /// of the next chunk.
    pub proof fn lemma_chunk_end_is_line_start(&self, k: int)
        requires
            self.wf(),
            0 <= k < self.chunks@.len(),
        ensures
            self.at_line_start(self.chunks@[k].offset_end as int),
    {
        let offset = self.chunks@[k].offset_end as int;
        if self.covered(offset) {
            let m = choose|m: int| 0 <= m < self.chunks@.len()
                && #[trigger] self.covered_by(m, offset);
            self.lemma_row_bounds(k, 0);
            if m < k {
                assert(self.chunks@[m].offset_end <= self.chunks@[k].offset_begin);
            } else {
                assert(self.chunks@[k].offset_end <= self.chunks@[m].offset_begin);
            }
            assert(self.holds_line(m, 0, offset));
        }
    }

    /// The last line without the line break that may end it.
    pub fn last_line_without_line_break(&self) -> (line: Vec<u8>)
        ensures
            line@ == self.last_line_body(),
    {
        let length = self.last_line.len();
        if length > 0 && self.last_line[length - 1] == LINE_BREAK {
            assert(self.last_line@.subrange(0, length - 1) =~= self.last_line@.drop_last());
            slice_to_vec(slice_subrange(self.last_line.as_slice(), 0, length - 1))
        } else {
            assert(self.last_line@.subrange(0, length as int) =~= self.last_line@);
            slice_to_vec(slice_subrange(self.last_line.as_slice(), 0, length))
        }
    }

    /// Up to `line_count` lines from `offset` on, as far as they are
    /// loaded: see `lines_from`.
    #[verifier::rlimit(30)]
    pub fn query_lines(&self, offset: usize, line_count: usize) -> (lines: Fetch<Vec<Vec<u8>>>)
        requires
            self.wf(),
            self.at_line_start(offset as int),
        ensures
            match lines {
                Fetch::Ready(found) => self.lines_from(offset as int, line_count as nat)
                    == Fetch::Ready(lines_of(found@)),
                Fetch::Missing(at) => self.lines_from(offset as int, line_count as nat)
                    == Fetch::<Seq<Seq<u8>>>::Missing(at) && !self.covered(at as int),
            },
    {
        let ghost goal = self.lines_from(offset as int, line_count as nat);
        let mut lines: Vec<Vec<u8>> = Vec::new();
        let mut position = offset;
        let mut wanted = line_count;
        let last_line_start = self.last_line_start_offset();
        assert(lines_of(lines@) =~= Seq::<Seq<u8>>::empty());
        assert(goal == prepend(lines_of(lines@), goal)) by {
            match goal {
                Fetch::Ready(found) => {
                    assert(Seq::<Seq<u8>>::empty() + found =~= found);
                },
                Fetch::Missing(_) => {},
            }
        }
        while position < last_line_start && wanted > 0
            invariant
                self.wf(),
                last_line_start == self.last_line_start(),
                self.at_line_start(position as int),
                goal == self.lines_from(offset as int, line_count as nat),
                goal == prepend(lines_of(lines@), self.lines_from(position as int, wanted as nat)),
            decreases wanted,
        {
            let chunk_index = match self.get_chunk_index_by_offset(position) {
                None => {
                    proof {
                        self.lemma_known_is_covered(position as int);
                    }
                    return Fetch::Missing(position);
                },
                Some(chunk_index) => chunk_index,
            };
            let chunk = &self.chunks[chunk_index];
            proof {
                let (k, i) = choose|k: int, i: int| self.holds_line(k, i, position as int);
                self.lemma_row_bounds(k, i);
                if k < chunk_index {
                    assert(self.chunks@[k].offset_end <= self.chunks@[chunk_index as int].offset_begin);
                } else if k > chunk_index {
                    assert(self.chunks@[chunk_index as int].offset_end <= self.chunks@[k].offset_begin);
                }
                assert(chunk.row_start(i) == position);
            }
            let line_index = chunk.query_line_index_exactly(position);
            let row_count = chunk.rows.len();
            let line_count_taken = if wanted < row_count - line_index {
                wanted
            } else {
                row_count - line_index
            };
            let mut taken_so_far: usize = 0;
            while taken_so_far < line_count_taken
                invariant
                    self.wf(),
                    chunk_index < self.chunks@.len(),
                    *chunk == self.chunks@[chunk_index as int],
                    row_count == chunk.rows@.len(),
                    line_index + line_count_taken <= row_count,
                    line_count_taken <= wanted,
                    taken_so_far <= line_count_taken,
                    goal == prepend(
                        lines_of(lines@),
                        self.lines_from(
                            chunk.row_start(line_index + taken_so_far),
                            (wanted - taken_so_far) as nat,
                        ),
                    ),
                decreases line_count_taken - taken_so_far,
            {
                let ghost row = line_index + taken_so_far;
                let ghost before = lines_of(lines@);
                let ghost rest = self.lines_from(
                    chunk.row_start(row + 1),
                    (wanted - taken_so_far - 1) as nat,
                );
                let line = slice_to_vec(chunk.rows[line_index + taken_so_far].as_slice());
                proof {
                    self.lemma_row_bounds(chunk_index as int, row);
                    self.lemma_line_unique(chunk_index as int, row, chunk.row_start(row));
                    assert(line@ == chunk.lines()[row]);
                    assert(lines_of(lines@.push(line)) =~= before.push(line@));
                    match rest {
                        Fetch::Ready(found) => {
                            assert(before + (seq![line@] + found) =~= before.push(line@) + found);
                        },
                        Fetch::Missing(_) => {},
                    }
                }
                lines.push(line);
                taken_so_far += 1;
            }
            proof {
                self.lemma_row_bounds(chunk_index as int, line_index as int);
                self.lemma_chunk_end_is_line_start(chunk_index as int);
            }
            wanted -= line_count_taken;
            position = chunk.offset_end;
        }
        if wanted > 0 {
            let ghost before = lines_of(lines@);
            let line = self.last_line_without_line_break();
            assert(lines_of(lines@.push(line)) =~= before + seq![line@]);
            lines.push(line);
        } else {
            assert(lines_of(lines@) + Seq::<Seq<u8>>::empty() =~= lines_of(lines@));
        }
        Fetch::Ready(lines)
    }

    /// True when row `i` of chunk `k` ends, with its line break, right
    /// before `offset`.
    pub open spec fn holds_line_before(&self, k: int, i: int, offset: int) -> bool {
        &&& 0 <= k < self.chunks@.len()
        &&& 0 <= i < self.chunks@[k].rows@.len()
        &&& self.chunks@[k].row_start(i + 1) == offset
    }

    /// True when a loaded line ends, with its line break, right before
    /// `offset`.
    pub open spec fn line_before_known(&self, offset: int) -> bool {
        exists|k: int, i: int| self.holds_line_before(k, i, offset)
    }

    /// The loaded line that ends, with its line break, right before `offset`.
    pub open spec fn line_before(&self, offset: int) -> Seq<u8> {
        let (k, i) = choose|k: int, i: int| self.holds_line_before(k, i, offset);
        self.chunks@[k].lines()[i]
    }

    /// The bytes from the start of the line `line_count` lines above
    /// `offset` to `offset`, or from the start of the file where that comes
    /// first; or the offset of the first line break on the way back of which
    /// the line is not loaded.
    pub open spec fn distance_back(&self, offset: int, line_count: nat) -> Fetch<int>
        decreases line_count,
    {
        if line_count == 0 || offset <= 0 {
            Fetch::Ready(0)
        } else if !self.line_before_known(offset) {
            Fetch::Missing((offset - 1) as usize)
        } else {
            let line = self.line_before(offset);
            advance(
                line.len() as int + 1,
                self.distance_back(offset - line.len() - 1, (line_count - 1) as nat),
            )
        }
    }

    /// The distance that `query_distance_to_above_n_lines` gives: that of
    /// `distance_back`, once the chunk that covers `offset` itself is
    /// loaded, which is asked for first unless `offset` is the start of the
    /// last line.
    pub open spec fn distance_above(&self, offset: int, line_count: nat) -> Fetch<int> {
        if line_count == 0 || offset <= 0 {
            Fetch::Ready(0)
        } else if offset != self.last_line_start() && !self.covered(offset) {
            Fetch::Missing(offset as usize)
        } else {
            self.distance_back(offset, line_count)
        }
    }

    /// At most one loaded line ends right before an offset.
    pub proof fn lemma_line_before_unique(&self, k: int, i: int, offset: int)
        requires
            self.wf(),
            self.holds_line_before(k, i, offset),
        ensures
            self.line_before_known(offset),
            self.line_before(offset) == self.chunks@[k].lines()[i],
            forall|m: int, j: int| self.holds_line_before(m, j, offset) ==> m == k && j == i,
    {
        assert forall|m: int, j: int| self.holds_line_before(m, j, offset) implies m == k && j
            == i by {
            self.lemma_row_bounds(k, i);
            self.lemma_row_bounds(m, j);
            if m < k {
                assert(self.chunks@[m].offset_end <= self.chunks@[k].offset_begin);
            } else if k < m {
                assert(self.chunks@[k].offset_end <= self.chunks@[m].offset_begin);
            } else if j < i {
                lemma_span_monotone(self.chunks@[k].lines(), j + 1, i + 1);
            } else if i < j {
                lemma_span_monotone(self.chunks@[k].lines(), i + 1, j + 1);
            }
        }
    }

    /// Where a chunk covers the byte before the start of a loaded line, or
    /// before the start of the last line, that byte is the line break of a
    /// loaded line.
    pub proof fn lemma_line_start_follows_line(&self, offset: int)
        requires
            self.wf(),
            self.line_known(offset) || offset == self.last_line_start(),
            self.covered(offset - 1),
        ensures
            self.line_before_known(offset),
    {
        let m = choose|m: int| 0 <= m < self.chunks@.len()
            && #[trigger] self.covered_by(m, offset - 1);
        let last = self.chunks@[m].rows@.len() - 1;
        self.lemma_row_bounds(m, last);
        if self.line_known(offset) {
            let (k, i) = choose|k: int, i: int| self.holds_line(k, i, offset);
            self.lemma_row_bounds(k, i);
            if i > 0 {
                assert(self.holds_line_before(k, i - 1, offset));
            } else {
                if m < k {
                    assert(self.chunks@[m].offset_end <= self.chunks@[k].offset_begin);
                } else if k < m {
                    assert(self.chunks@[k].offset_end <= self.chunks@[m].offset_begin);
                }
                assert(self.holds_line_before(m, last, offset));
            }
        } else {
            assert(self.holds_line_before(m, last, offset));
        }
    }

    /// The distance to the start of the line `line_count` lines below
    /// `offset`, as far as the lines are loaded: see `distance_below`.
    pub fn query_distance_to_below_n_lines(&self, offset: usize, line_count: usize) -> (distance:
        Fetch<usize>)
        requires
            self.wf(),
            self.at_line_start(offset as int),
        ensures
            match distance {
                Fetch::Ready(d) => self.distance_below(offset as int, line_count as nat)
                    == Fetch::Ready(d as int),
                Fetch::Missing(at) => self.distance_below(offset as int, line_count as nat)
                    == Fetch::<int>::Missing(at) && !self.covered(at as int),
            },
            distance matches Fetch::Ready(d) ==> offset + d <= self.last_line_start()
                || d == 0,
            distance matches Fetch::Ready(d) ==> self.at_line_start(offset + d),
    {
        let ghost goal = self.distance_below(offset as int, line_count as nat);
        let mut distance: usize = 0;
        let mut position = offset;
        let mut wanted = line_count;
        let last_line_start = self.last_line_start_offset();
        while position < last_line_start && wanted > 0
            invariant
                self.wf(),
                last_line_start == self.last_line_start(),
                self.at_line_start(position as int),
                position == offset + distance,
                position <= last_line_start || distance == 0,
                goal == self.distance_below(offset as int, line_count as nat),
                goal == advance(distance as int, self.distance_below(position as int, wanted as nat)),
            decreases wanted,
        {
            let chunk_index = match self.get_chunk_index_by_offset(position) {
                None => {
                    proof {
                        self.lemma_known_is_covered(position as int);
                    }
                    return Fetch::Missing(position);
                },
                Some(chunk_index) => chunk_index,
            };
            let chunk = &self.chunks[chunk_index];
            proof {
                let (k, i) = choose|k: int, i: int| self.holds_line(k, i, position as int);
                self.lemma_row_bounds(k, i);
                if k < chunk_index {
                    assert(self.chunks@[k].offset_end <= self.chunks@[chunk_index as int].offset_begin);
                } else if k > chunk_index {
                    assert(self.chunks@[chunk_index as int].offset_end <= self.chunks@[k].offset_begin);
                }
                assert(chunk.row_start(i) == position);
            }
            let mut line_index = chunk.query_line_index_exactly(position);
            let row_count = chunk.rows.len();
            let ghost first_index = line_index;
            let ghost wanted_before = wanted;
            while line_index < row_count && wanted > 0
                invariant
                    self.wf(),
                    first_index <= line_index,
                    wanted + (line_index - first_index) == wanted_before,
                    last_line_start == self.last_line_start(),
                    chunk_index < self.chunks@.len(),
                    *chunk == self.chunks@[chunk_index as int],
                    row_count == chunk.rows@.len(),
                    line_index <= row_count,
                    position == chunk.row_start(line_index as int),
                    position == offset + distance,
                    position <= last_line_start,
                    goal == advance(
                        distance as int,
                        self.distance_below(position as int, wanted as nat),
                    ),
                decreases wanted,
            {
                proof {
                    self.lemma_row_bounds(chunk_index as int, line_index as int);
                    self.lemma_line_unique(chunk_index as int, line_index as int, position as int);
                }
                // count in the line break
                let step = chunk.rows[line_index].len() + 1;
                distance += step;
                position += step;
                line_index += 1;
                wanted -= 1;
            }
            proof {
                if line_index == row_count {
                    self.lemma_row_bounds(chunk_index as int, 0);
                    self.lemma_chunk_end_is_line_start(chunk_index as int);
                } else {
                    assert(self.holds_line(chunk_index as int, line_index as int, position as int));
                }
            }
        }
        Fetch::Ready(distance)
    }

    /// The distance from the start of the line `line_count` lines above
    /// `offset`, as far as the lines are loaded: see `distance_above`.
    #[verifier::rlimit(30)]
    pub fn query_distance_to_above_n_lines(&self, offset: usize, line_count: usize) -> (distance:
        Fetch<usize>)
        requires
            self.wf(),
            offset <= self.last_line_start(),
            self.at_line_start(offset as int),
        ensures
            match distance {
                Fetch::Ready(d) => self.distance_above(offset as int, line_count as nat)
                    == Fetch::Ready(d as int),
                Fetch::Missing(at) => self.distance_above(offset as int, line_count as nat)
                    == Fetch::<int>::Missing(at) && !self.covered(at as int),
            },
            distance matches Fetch::Ready(d) ==> d <= offset && self.at_line_start(offset - d),
    {
        if line_count == 0 || offset == 0 {
            return Fetch::Ready(0);
        }
        let last_line_start = self.last_line_start_offset();
        if offset != last_line_start {
            if self.get_chunk_index_by_offset(offset).is_none() {
                return Fetch::Missing(offset);
            }
        }
        let ghost goal = self.distance_back(offset as int, line_count as nat);
        let mut distance: usize = 0;
        let mut position = offset;
        let mut wanted = line_count;
        while position > 0 && wanted > 0
            invariant
                self.wf(),
                position + distance == offset,
                self.line_known(position as int) || position == self.last_line_start(),
                goal == self.distance_above(offset as int, line_count as nat),
                goal == advance(distance as int, self.distance_back(position as int, wanted as nat)),
            decreases wanted,
        {
            let chunk_index = match self.get_chunk_index_by_offset(position - 1) {
                None => {
                    proof {
                        if self.line_before_known(position as int) {
                            let (k, i) = choose|k: int, i: int|
                                self.holds_line_before(k, i, position as int);
                            self.lemma_row_bounds(k, i);
                        }
                    }
                    return Fetch::Missing(position - 1);
                },
                Some(chunk_index) => chunk_index,
            };
            let chunk = &self.chunks[chunk_index];
            let found = chunk.query_line_index(position - 1);
            proof {
                self.lemma_line_start_follows_line(position as int);
                let (k, i) = choose|k: int, i: int| self.holds_line_before(k, i, position as int);
                self.lemma_row_bounds(k, i);
                if k < chunk_index {
                    assert(self.chunks@[k].offset_end <= self.chunks@[chunk_index as int].offset_begin);
                } else if k > chunk_index {
                    assert(self.chunks@[chunk_index as int].offset_end <= self.chunks@[k].offset_begin);
                }
                if found < i {
                    lemma_span_monotone(chunk.lines(), found + 1, i);
                } else if i < found {
                    lemma_span_monotone(chunk.lines(), i + 1, found as int);
                }
            }
            let row_count = chunk.rows.len();
            let mut above_lines_in_chunk = found + 1;
            let ghost wanted_before = wanted;
            while above_lines_in_chunk > 0 && wanted > 0
                invariant
                    self.wf(),
                    above_lines_in_chunk <= found + 1,
                    wanted + (found + 1 - above_lines_in_chunk) == wanted_before,
                    chunk_index < self.chunks@.len(),
                    *chunk == self.chunks@[chunk_index as int],
                    above_lines_in_chunk <= chunk.rows@.len(),
                    position == chunk.row_start(above_lines_in_chunk as int),
                    position + distance == offset,
                    goal == advance(
                        distance as int,
                        self.distance_back(position as int, wanted as nat),
                    ),
                decreases wanted,
            {
                proof {
                    self.lemma_row_bounds(chunk_index as int, above_lines_in_chunk - 1);
                    self.lemma_line_before_unique(
                        chunk_index as int,
                        above_lines_in_chunk - 1,
                        position as int,
                    );
                }
                above_lines_in_chunk -= 1;
                // count in the line break
                let step = chunk.rows[above_lines_in_chunk].len() + 1;
                distance += step;
                position -= step;
                wanted -= 1;
            }
            proof {
                self.lemma_row_bounds(chunk_index as int, 0);
                if above_lines_in_chunk < chunk.rows@.len() {
                    assert(self.holds_line(
                        chunk_index as int,
                        above_lines_in_chunk as int,
                        position as int,
                    ));
                } else {
                    // no line was counted: `position` is where it was
                }
            }
        }
        proof {
            if self.line_known(position as int) {
                self.lemma_known_is_covered(position as int);
            }
        }
        Fetch::Ready(distance)
    }

    /// The row that starts at `offset`.
    pub open spec fn row_at(&self, offset: int) -> Vec<u8> {
        let (k, i) = choose|k: int, i: int| self.holds_line(k, i, offset);
        self.chunks@[k].rows@[i]
    }

    /// True when `predicate` can answer `verdict` on the line that starts at
    /// `offset`, the last line standing for every offset from its start on.
    pub open spec fn judged<F: Fn(&Vec<u8>) -> bool>(
        &self,
        predicate: F,
        offset: int,
        verdict: bool,
    ) -> bool {
        if offset >= self.last_line_start() {
            call_ensures(predicate, (&self.last_line,), verdict)
        } else {
            self.line_known(offset) && call_ensures(predicate, (&self.row_at(offset),), verdict)
        }
    }

    /// True when the lines from `from` up to `to` are loaded, stand before
    /// the last line and were all turned down by `predicate`.
    pub open spec fn turned_down<F: Fn(&Vec<u8>) -> bool>(
        &self,
        predicate: F,
        from: int,
        to: int,
    ) -> bool
        decreases to - from,
    {
        let next = from + self.line_at(from).len() + 1;
        if from >= to {
            from == to
        } else if next > to {
            false
        } else {
            &&& from < self.last_line_start()
            &&& self.judged(predicate, from, false)
            &&& self.turned_down(predicate, next, to)
        }
    }

    /// A run of lines that were turned down goes on by one more such line.
    pub proof fn lemma_turned_down_extends<F: Fn(&Vec<u8>) -> bool>(
        &self,
        predicate: F,
        from: int,
        to: int,
    )
        requires
            self.turned_down(predicate, from, to),
            to < self.last_line_start(),
            self.judged(predicate, to, false),
        ensures
            self.turned_down(predicate, from, to + self.line_at(to).len() + 1),
        decreases to - from,
    {
        let next = to + self.line_at(to).len() + 1;
        if from == to {
            assert(self.turned_down(predicate, next, next));
        } else {
            self.lemma_turned_down_extends(predicate, from + self.line_at(from).len() + 1, to);
        }
    }

    /// The distance from `offset` to the start of the first line at or after
    /// it that `predicate` takes, the last line of the file being the last
    /// that is tried; `None` where it takes no line; or the first offset on
    /// the way at which a line is needed that is not loaded.
    pub fn query_distance_to_next_match<F: Fn(&Vec<u8>) -> bool>(
        &self,
        offset: usize,
        predicate: F,
    ) -> (distance: Fetch<Option<usize>>)
        requires
            self.wf(),
            self.at_line_start(offset as int),
            forall|line: &Vec<u8>| call_requires(predicate, (line,)),
        ensures
            match distance {
                Fetch::Ready(Some(d)) => self.turned_down(predicate, offset as int, offset + d)
                    && self.judged(predicate, offset + d, true) && (offset + d
                    <= self.last_line_start() || d == 0),
                Fetch::Ready(None) => exists|stop: int|
                    stop >= self.last_line_start() && #[trigger] self.turned_down(
                        predicate,
                        offset as int,
                        stop,
                    ) && self.judged(predicate, stop, false),
                Fetch::Missing(at) => self.turned_down(predicate, offset as int, at as int) && at
                    < self.last_line_start() && !self.covered(at as int),
            },
    {
        let mut distance: usize = 0;
        let mut position = offset;
        let last_line_start = self.last_line_start_offset();
        while position < last_line_start
            invariant
                self.wf(),
                last_line_start == self.last_line_start(),
                self.at_line_start(position as int),
                position == offset + distance,
                position <= last_line_start || distance == 0,
                forall|line: &Vec<u8>| call_requires(predicate, (line,)),
                self.turned_down(predicate, offset as int, position as int),
            decreases last_line_start - position,
        {
            let chunk_index = match self.get_chunk_index_by_offset(position) {
                None => {
                    return Fetch::Missing(position);
                },
                Some(chunk_index) => chunk_index,
            };
            let chunk = &self.chunks[chunk_index];
            proof {
                let (k, i) = choose|k: int, i: int| self.holds_line(k, i, position as int);
                self.lemma_row_bounds(k, i);
                if k < chunk_index {
                    assert(self.chunks@[k].offset_end <= self.chunks@[chunk_index as int].offset_begin);
                } else if k > chunk_index {
                    assert(self.chunks@[chunk_index as int].offset_end <= self.chunks@[k].offset_begin);
                }
                assert(chunk.row_start(i) == position);
            }
            let mut line_index = chunk.query_line_index_exactly(position);
            let row_count = chunk.rows.len();
            while line_index < row_count
                invariant
                    self.wf(),
                    last_line_start == self.last_line_start(),
                    chunk_index < self.chunks@.len(),
                    *chunk == self.chunks@[chunk_index as int],
                    row_count == chunk.rows@.len(),
                    line_index <= row_count,
                    position == chunk.row_start(line_index as int),
                    position == offset + distance,
                    position <= last_line_start,
                    forall|line: &Vec<u8>| call_requires(predicate, (line,)),
                    self.turned_down(predicate, offset as int, position as int),
                decreases row_count - line_index,
            {
                proof {
                    self.lemma_row_bounds(chunk_index as int, line_index as int);
                    self.lemma_line_unique(chunk_index as int, line_index as int, position as int);
                }
                if predicate(&chunk.rows[line_index]) {
                    return Fetch::Ready(Some(distance));
                }
                proof {
                    self.lemma_turned_down_extends(predicate, offset as int, position as int);
                }
                // count in the line break
                let step = chunk.rows[line_index].len() + 1;
                distance += step;
                position += step;
                line_index += 1;
            }
            proof {
                self.lemma_row_bounds(chunk_index as int, 0);
                self.lemma_chunk_end_is_line_start(chunk_index as int);
            }
        }
        if predicate(&self.last_line) {
            Fetch::Ready(Some(distance))
        } else {
            Fetch::Ready(None)
        }
    }

    /// The row that ends, with its line break, right before `offset`.
    pub open spec fn row_before(&self, offset: int) -> Vec<u8> {
        let (k, i) = choose|k: int, i: int| self.holds_line_before(k, i, offset);
        self.chunks@[k].rows@[i]
    }

    /// True when the line that ends right before `offset` is loaded and
    /// `predicate` can answer `verdict` on it.
    pub open spec fn judged_before<F: Fn(&Vec<u8>) -> bool>(
        &self,
        predicate: F,
        offset: int,
        verdict: bool,
    ) -> bool {
        self.line_before_known(offset) && call_ensures(
            predicate,
            (&self.row_before(offset),),
            verdict,
        )
    }

    /// True when the lines between `to` and `from`, walked upwards from
    /// `from`, are loaded and were all turned down by `predicate`.
    pub open spec fn turned_down_above<F: Fn(&Vec<u8>) -> bool>(
        &self,
        predicate: F,
        from: int,
        to: int,
    ) -> bool
        decreases from - to,
    {
        let next = from - self.line_before(from).len() - 1;
        if from <= to {
            from == to
        } else if next < to {
            false
        } else {
            &&& self.judged_before(predicate, from, false)
            &&& self.turned_down_above(predicate, next, to)
        }
    }

    /// A run of lines that were turned down goes on upwards by one more
    /// such line.
    pub proof fn lemma_turned_down_above_extends<F: Fn(&Vec<u8>) -> bool>(
        &self,
        predicate: F,
        from: int,
        to: int,
    )
        requires
            self.turned_down_above(predicate, from, to),
            self.judged_before(predicate, to, false),
        ensures
            self.turned_down_above(predicate, from, to - self.line_before(to).len() - 1),
        decreases from - to,
    {
        let next = to - self.line_before(to).len() - 1;
        if from == to {
            assert(self.turned_down_above(predicate, next, next));
        } else {
            self.lemma_turned_down_above_extends(
                predicate,
                from - self.line_before(from).len() - 1,
                to,
            );
        }
    }

    /// The distance from the start of the nearest line above `offset` that
    /// `predicate` takes to `offset`; `None` where it takes no line above;
    /// or an offset at which a line is needed that is not loaded: `offset`
    /// itself, whose chunk is asked for first unless the last line starts
    /// there, or that of a line break on the way up.
    #[verifier::rlimit(30)]
    pub fn query_distance_to_prev_match<F: Fn(&Vec<u8>) -> bool>(
        &self,
        offset: usize,
        predicate: F,
    ) -> (distance: Fetch<Option<usize>>)
        requires
            self.wf(),
            offset <= self.last_line_start(),
            self.at_line_start(offset as int),
            forall|line: &Vec<u8>| call_requires(predicate, (line,)),
        ensures
            match distance {
                Fetch::Ready(Some(d)) => 0 < d <= offset && exists|stop: int|
                    #[trigger] self.turned_down_above(predicate, offset as int, stop)
                        && self.judged_before(predicate, stop, true) && offset - d == stop
                        - self.line_before(stop).len() - 1,
                Fetch::Ready(None) => self.turned_down_above(predicate, offset as int, 0),
                Fetch::Missing(at) => !self.covered(at as int) && if at == offset {
                    offset != self.last_line_start() && offset > 0
                } else {
                    self.turned_down_above(predicate, offset as int, at + 1)
                },
            },
            distance matches Fetch::Ready(Some(d)) ==> self.at_line_start(offset - d),
    {
        if offset == 0 {
            return Fetch::Ready(None);
        }
        let last_line_start = self.last_line_start_offset();
        if offset != last_line_start {
            if self.get_chunk_index_by_offset(offset).is_none() {
                return Fetch::Missing(offset);
            }
        }
        let mut distance: usize = 0;
        let mut position = offset;
        while position > 0
            invariant
                self.wf(),
                position + distance == offset,
                self.line_known(position as int) || position == self.last_line_start(),
                forall|line: &Vec<u8>| call_requires(predicate, (line,)),
                self.turned_down_above(predicate, offset as int, position as int),
            decreases position,
        {
            let chunk_index = match self.get_chunk_index_by_offset(position - 1) {
                None => {
                    return Fetch::Missing(position - 1);
                },
                Some(chunk_index) => chunk_index,
            };
            let chunk = &self.chunks[chunk_index];
            let found = chunk.query_line_index(position - 1);
            proof {
                self.lemma_line_start_follows_line(position as int);
                let (k, i) = choose|k: int, i: int| self.holds_line_before(k, i, position as int);
                self.lemma_row_bounds(k, i);
                if k < chunk_index {
                    assert(self.chunks@[k].offset_end <= self.chunks@[chunk_index as int].offset_begin);
                } else if k > chunk_index {
                    assert(self.chunks@[chunk_index as int].offset_end <= self.chunks@[k].offset_begin);
                }
                if found < i {
                    lemma_span_monotone(chunk.lines(), found + 1, i);
                } else if i < found {
                    lemma_span_monotone(chunk.lines(), i + 1, found as int);
                }
            }
            let row_count = chunk.rows.len();
            let mut above_lines_in_chunk = found + 1;
            while above_lines_in_chunk > 0
                invariant
                    self.wf(),
                    chunk_index < self.chunks@.len(),
                    *chunk == self.chunks@[chunk_index as int],
                    above_lines_in_chunk <= found + 1 <= chunk.rows@.len(),
                    position == chunk.row_start(above_lines_in_chunk as int),
                    position + distance == offset,
                    above_lines_in_chunk <= found ==> distance > 0,
                    forall|line: &Vec<u8>| call_requires(predicate, (line,)),
                    self.turned_down_above(predicate, offset as int, position as int),
                decreases above_lines_in_chunk,
            {
                let ghost stop = position as int;
                proof {
                    self.lemma_row_bounds(chunk_index as int, above_lines_in_chunk - 1);
                    self.lemma_line_before_unique(
                        chunk_index as int,
                        above_lines_in_chunk - 1,
                        position as int,
                    );
                }
                above_lines_in_chunk -= 1;
                // count in the line break
                let step = chunk.rows[above_lines_in_chunk].len() + 1;
                distance += step;
                position -= step;
                if predicate(&chunk.rows[above_lines_in_chunk]) {
                    proof {
                        assert(self.holds_line(
                            chunk_index as int,
                            above_lines_in_chunk as int,
                            position as int,
                        ));
                        assert(self.turned_down_above(predicate, offset as int, stop));
                    }
                    return Fetch::Ready(Some(distance));
                }
                proof {
                    self.lemma_turned_down_above_extends(predicate, offset as int, stop);
                }
            }
            proof {
                self.lemma_row_bounds(chunk_index as int, 0);
                assert(self.holds_line(chunk_index as int, 0, position as int));
            }
        }
        Fetch::Ready(None)
    }

    /// The interval that a load around `offset` is for: half the chunk size
    /// to either side of it.
    pub open spec fn around(&self, offset: int) -> (int, int) {
        let half = self.default_chunk_size as int / 2;
        (
            if offset < half {
                0
            } else {
                offset - half
            },
            if offset + half > usize::MAX {
                usize::MAX as int
            } else {
                offset + half
            },
        )
    }

    /// The window of the file to read for a load around `offset`.
    pub fn plan_load_around(&self, offset: usize) -> (plan: Option<(usize, usize)>)
        requires
            self.wf(),
            self.around(offset as int).0 < self.document_size,
        ensures
            plan == self.spec_plan(self.around(offset as int).0, self.around(offset as int).1),
            plan matches Some((read_begin, read_end)) ==> read_begin < read_end
                <= self.document_size,
    {
        let offset_begin = offset.saturating_sub(self.default_chunk_size / 2);
        let offset_end = offset.saturating_add(self.default_chunk_size / 2);
        self.plan_load(offset_begin, offset_end)
    }

    /// Takes in `bytes`, the content of the window that `plan_load_around`
    /// gives for `offset`: see `load_chunk`.
    pub fn load_chunk_around(&mut self, offset: usize, bytes: &[u8]) -> (loaded: Result<
        Option<usize>,
        LoadError,
    >)
        requires
            old(self).wf(),
            old(self).around(offset as int).0 < old(self).document_size,
        ensures
            final(self).wf(),
            old(self).loads(
                final(self),
                old(self).around(offset as int).0,
                old(self).around(offset as int).1,
                bytes@,
                loaded,
            ),
    {
        let offset_begin = offset.saturating_sub(self.default_chunk_size / 2);
        let offset_end = offset.saturating_add(self.default_chunk_size / 2);
        self.load_chunk(offset_begin, offset_end, bytes)
    }

    /// The chunk that covers `offset`, where one is loaded.
    pub fn get_chunk_by_offset(&self, offset: usize) -> (chunk: Fetch<&Chunk>)
        requires
            self.wf(),
        ensures
            match chunk {
                Fetch::Ready(found) => exists|k: int|
                    0 <= k < self.chunks@.len() && #[trigger] self.covered_by(k, offset as int)
                        && *found == self.chunks@[k],
                Fetch::Missing(at) => at == offset && !self.covered(offset as int),
            },
    {
        match self.get_chunk_index_by_offset(offset) {
            Some(chunk_index) => Fetch::Ready(&self.chunks[chunk_index]),
            None => Fetch::Missing(offset),
        }
    }

    /// Tells whether `offset`, which lies before the last line, is the start
    /// of a line, where the chunk that covers it is loaded.
    pub fn assert_offset_is_at_line_start(&self, offset: usize) -> (found: Fetch<bool>)
        requires
            self.wf(),
        ensures
            match found {
                Fetch::Ready(at_start) => self.covered(offset as int) && at_start
                    == self.line_known(offset as int),
                Fetch::Missing(at) => at == offset && !self.covered(offset as int),
            },
    {
        match self.get_chunk_index_by_offset(offset) {
            Some(chunk_index) => {
                let at_start = self.chunks[chunk_index].is_row_start(offset);
                proof {
                    let chunk = self.chunks@[chunk_index as int];
                    if at_start {
                        let i = choose|i: int|
                            0 <= i < chunk.rows@.len() && #[trigger] chunk.row_start(i) == offset;
                        assert(self.holds_line(chunk_index as int, i, offset as int));
                    } else if self.line_known(offset as int) {
                        let (k, i) = choose|k: int, i: int| self.holds_line(k, i, offset as int);
                        self.lemma_row_bounds(k, i);
                        if k < chunk_index {
                            assert(self.chunks@[k].offset_end <= chunk.offset_begin);
                        } else if k > chunk_index {
                            assert(chunk.offset_end <= self.chunks@[k].offset_begin);
                        }
                        assert(chunk.row_start(i) == offset);
                    }
                }
                Fetch::Ready(at_start)
            },
            None => Fetch::Missing(offset),
        }
    }

    /// The window of a file of `document_size` bytes that holds its last
    /// line: the last bytes of the file, a chunk size of them and one more.
    /// `None` for an empty file.
    pub open spec fn spec_tail_window(document_size: usize) -> Option<(usize, usize)> {
        if document_size == 0 {
            None
        } else if document_size <= DEFAULT_CHUNK_SIZE + 1 {
            Some((0usize, document_size))
        } else {
            Some(((document_size - DEFAULT_CHUNK_SIZE - 1) as usize, document_size))
        }
    }

    /// The window to read of a file of `document_size` bytes before a
    /// document can be made of it.
    pub fn tail_window(document_size: usize) -> (window: Option<(usize, usize)>)
        ensures
            window == Self::spec_tail_window(document_size),
    {
        if document_size == 0 {
            None
        } else {
            Some(
                (document_size.saturating_sub(DEFAULT_CHUNK_SIZE).saturating_sub(1), document_size),
            )
        }
    }

    /// The document of a file of `document_size` bytes, given `tail`, the
    /// content of its tail window: it holds the last line and the chunk of
    /// the complete lines before it in the window. An empty file gives a
    /// document with an empty last line, whatever `tail` holds.
    pub fn new(document_size: usize, tail: &[u8]) -> (made: Result<Document, LoadError>)
        ensures
            match Self::spec_tail_window(document_size) {
                None => made matches Ok(document) && document.chunks@.len() == 0
                    && document.last_line@.len() == 0,
                Some((read_begin, read_end)) => {
                    let content = taken(tail@, read_begin as int, read_end as int);
                    let inc = incoming(content, read_begin as int, true);
                    if tail@.len() == 0 {
                        made matches Err(e) && e == LoadError::NothingRead
                    } else if !valid_utf8(content) {
                        made matches Err(e) && e == LoadError::InvalidUtf8
                    } else if !readable(content, read_begin as int, true) {
                        made matches Err(e) && e == LoadError::LineTooLong
                    } else {
                        &&& made matches Ok(document)
                        &&& Some(document.last_line@) == inc.last_line
                        &&& if inc.lines.len() == 0 {
                            document.chunks@.len() == 0
                        } else {
                            &&& document.chunks@.len() == 1
                            &&& document.chunks@[0].offset_begin == inc.begin
                            &&& document.chunks@[0].offset_end == inc.end
                            &&& document.chunks@[0].lines() == inc.lines
                        }
                    }
                },
            },
            made matches Ok(document) ==> document.wf() && document.document_size == document_size
                && document.default_chunk_size == DEFAULT_CHUNK_SIZE
                && document.log_timestamp_format is None,
    {
        let mut document = Document {
            chunks: Vec::new(),
            log_timestamp_format: None,
            log_default_date: None,
            last_line: Vec::new(),
            document_size,
            default_chunk_size: DEFAULT_CHUNK_SIZE,
        };
        if document_size == 0 {
            return Ok(document);
        }
        let ghost blank = document;
        let offset_begin = document_size.saturating_sub(DEFAULT_CHUNK_SIZE);
        proof {
            assert(blank.forward_slide(offset_begin as int, offset_begin as int));
            assert(blank.backward_slide(document_size as int, document_size as int));
            blank.lemma_forward_slide_unique(
                offset_begin as int,
                offset_begin as int,
                blank.slid_begin(offset_begin as int),
            );
            blank.lemma_backward_slide_unique(
                document_size as int,
                document_size as int,
                blank.slid_end(document_size as int),
            );
        }
        match document.load_chunk(offset_begin, document_size, tail) {
            Err(e) => Err(e),
            Ok(_) => Ok(document),
        }
    }

    /// The last line of a file of `document_size` bytes that is not empty,
    /// read from `tail`, the content of its tail window; or why it cannot
    /// be read from it.
    pub open spec fn spec_last_line_of(document_size: usize, tail: Seq<u8>) -> Result<
        Seq<u8>,
        LoadError,
    > {
        match Self::spec_tail_window(document_size) {
            None => Ok(Seq::empty()),
            Some((read_begin, read_end)) => {
                let content = taken(tail, read_begin as int, read_end as int);
                if tail.len() == 0 {
                    Err(LoadError::NothingRead)
                } else if !valid_utf8(content) {
                    Err(LoadError::InvalidUtf8)
                } else if !readable(content, read_begin as int, true) {
                    Err(LoadError::LineTooLong)
                } else {
                    Ok(incoming(content, read_begin as int, true).last_line->0)
                }
            },
        }
    }

    /// True when every chunk ends at or before `start`.
    pub open spec fn fits_before(&self, start: int) -> bool {
        forall|k: int| 0 <= k < self.chunks@.len() ==> (#[trigger] self.chunks@[k]).offset_end <= start
    }

    /// True when `after` and `updated` are what this document becomes when
    /// the file is found to hold `document_size` bytes, `tail` being the
    /// content of its tail window. A file of the size that the document
    /// has changes nothing. Else the document takes the size and the last
    /// line read from `tail`. Its chunks and what it knows of the
    /// timestamps stay where every chunk ends at or before the start of the
    /// new last line, as they do when the file has only grown; else the
    /// chunks are dropped and the timestamps forgotten. Where the last line
    /// cannot be read the document stays as it is.
    pub open spec fn refreshed(
        &self,
        after: &Document,
        document_size: usize,
        tail: Seq<u8>,
        updated: Result<bool, LoadError>,
    ) -> bool {
        if document_size == self.document_size {
            updated == Ok::<bool, LoadError>(false) && *after == *self
        } else {
            match Self::spec_last_line_of(document_size, tail) {
                Err(e) => updated == Err::<bool, LoadError>(e) && *after == *self,
                Ok(line) => {
                    &&& updated == Ok::<bool, LoadError>(true)
                    &&& after.document_size == document_size
                    &&& after.last_line@ == line
                    &&& after.default_chunk_size == self.default_chunk_size
                    &&& if self.fits_before(document_size - line.len()) {
                        &&& after.chunks == self.chunks
                        &&& after.log_timestamp_format == self.log_timestamp_format
                        &&& after.log_default_date == self.log_default_date
                    } else {
                        &&& after.chunks@.len() == 0
                        &&& after.log_timestamp_format is None
                        &&& after.log_default_date is None
                    }
                },
            }
        }
    }

    /// Takes note of the size that the file has now, given `tail`, the
    /// content of the tail window of a file of that size: see `refreshed`.
    /// Tells whether the size is new.
    pub fn update_docsize_and_lastline(&mut self, document_size: usize, tail: &[u8]) -> (updated:
        Result<bool, LoadError>)
        requires
            old(self).wf(),
        ensures
            final(self).wf(),
            old(self).refreshed(final(self), document_size, tail@, updated),
    {
        if document_size == self.document_size {
            return Ok(false);
        }
        let made = match Document::new(document_size, tail) {
            Err(e) => {
                return Err(e);
            },
            Ok(made) => made,
        };
        let start = document_size - made.last_line.len();
        let count = self.chunks.len();
        let fits = count == 0 || self.chunks[count - 1].offset_end <= start;
        proof {
            assert(Self::spec_last_line_of(document_size, tail@) is Ok);
            assert(made.last_line@ =~= Self::spec_last_line_of(document_size, tail@)->Ok_0);
            if fits {
                assert forall|k: int| 0 <= k < self.chunks@.len() implies (
                #[trigger] self.chunks@[k]).offset_end <= start by {
                    if k < count - 1 {
                        assert(self.chunks@[k].offset_end <= self.chunks@[count - 1].offset_begin);
                        assert(self.chunks@[count - 1].wf());
                    }
                }
                assert(self.fits_before(start as int));
            } else {
                assert(self.chunks@[count - 1].offset_end > start);
                assert(!self.fits_before(start as int));
            }
        }
        if !fits {
            self.chunks = Vec::new();
            self.log_timestamp_format = None;
            self.log_default_date = None;
        }
        self.document_size = document_size;
        self.last_line = made.last_line;
        Ok(true)
    }

    /// Sets the number of bytes that a load around an offset asks for.
    pub fn set_default_chunk_size(&mut self, default_chunk_size: usize)
        requires
            old(self).wf(),
            default_chunk_size >= 2,
        ensures
            final(self).wf(),
            final(self).default_chunk_size == default_chunk_size,
            final(self).chunks == old(self).chunks,
            final(self).last_line == old(self).last_line,
            final(self).document_size == old(self).document_size,
            final(self).log_timestamp_format == old(self).log_timestamp_format,
            final(self).log_default_date == old(self).log_default_date,
    {
        self.default_chunk_size = default_chunk_size;
    }

    /// The start of the file can start a query.
    pub proof fn lemma_origin_is_line_start(&self)
        requires
            self.wf(),
        ensures
            self.at_line_start(0),
    {
        if self.covered(0) {
            let k = choose|k: int| 0 <= k < self.chunks@.len() && #[trigger] self.covered_by(k, 0);
            assert(self.holds_line(k, 0, 0));
        }
    }

    /// Going down `a` lines and from there `b` lines more is going down
    /// `a + b` lines: the two distances add up to the distance of the whole
    /// way, wherever the lines on the way are loaded.
    pub proof fn lemma_distance_below_composes(&self, offset: int, a: nat, b: nat)
        requires
            self.distance_below(offset, a) is Ready,
            self.distance_below(offset + self.distance_below(offset, a)->Ready_0, b) is Ready,
        ensures
            self.distance_below(offset, a + b) == Fetch::Ready(
                self.distance_below(offset, a)->Ready_0 + self.distance_below(
                    offset + self.distance_below(offset, a)->Ready_0,
                    b,
                )->Ready_0,
            ),
        decreases a,
    {
        if a == 0 {
            assert(self.distance_below(offset, a) == Fetch::Ready(0int));
        } else if offset >= self.last_line_start() {
            assert(self.distance_below(offset, a) == Fetch::Ready(0int));
            assert(self.distance_below(offset, b) == Fetch::Ready(0int));
        } else {
            let line = self.line_at(offset);
            let next = offset + line.len() + 1;
            self.lemma_distance_below_composes(next, (a - 1) as nat, b);
            assert((a - 1) as nat + b == (a + b - 1) as nat);
        }
    }
}

} // verus!
