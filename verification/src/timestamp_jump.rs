//! The jump to a timestamp: the search, by halving and then line by line,
//! for the first line of a log whose timestamp has reached a given one.

use crate::document::{Document, Fetch, DEFAULT_CHUNK_SIZE};
use crate::log_timestamp::{
    datetime_prefix, detect_log_timstamp_format, numbers_reached, parse_datetime_prefix,
    spec_detect, LogDate, LogDateTime, LogTime,
};
use crate::text::lemma_span_monotone;
use vstd::prelude::*;

verus! {

/// The number of lines at the start of the first chunk in which a timestamp
/// is looked for.
pub const SAMPLE_LINE_COUNT: usize = 100;

impl Document {
    /// The timestamp that `line` starts with in the format of the document.
    pub open spec fn timestamp_of(&self, line: Seq<u8>) -> Option<(int, int, int)> {
        match self.log_timestamp_format {
            Some(format) => datetime_prefix(line, format@),
            None => None,
        }
    }

    /// True when `line` starts with a timestamp that has reached `target`.
    pub open spec fn is_late(&self, line: Seq<u8>, target: LogDateTime) -> bool {
        self.timestamp_of(line) matches Some(numbers) && numbers_reached(numbers, target.numbers())
    }

    /// True when the lines from `from` up to `to` are loaded and none of
    /// them starts with a timestamp that has reached `target`.
    pub open spec fn early_run(&self, target: LogDateTime, from: int, to: int) -> bool
        decreases to - from,
    {
        let next = from + self.line_at(from).len() + 1;
        if from >= to {
            from == to
        } else if next > to {
            false
        } else {
            &&& self.line_known(from)
            &&& !self.is_late(self.line_at(from), target)
            &&& self.early_run(target, next, to)
        }
    }

    /// A run of early lines goes on by one more early line.
    pub proof fn lemma_early_run_extends(&self, target: LogDateTime, from: int, to: int)
        requires
            self.early_run(target, from, to),
            self.line_known(to),
            !self.is_late(self.line_at(to), target),
        ensures
            self.early_run(target, from, to + self.line_at(to).len() + 1),
        decreases to - from,
    {
        let next = to + self.line_at(to).len() + 1;
        if from == to {
            assert(self.early_run(target, next, next));
        } else {
            self.lemma_early_run_extends(target, from + self.line_at(from).len() + 1, to);
        }
    }

    /// A loaded line that starts within a run of early lines is one of them.
    pub proof fn lemma_early_run_holds(&self, target: LogDateTime, from: int, to: int, start: int)
        requires
            self.wf(),
            self.early_run(target, from, to),
            self.line_known(start),
            from <= start < to,
        ensures
            !self.is_late(self.line_at(start), target),
        decreases to - from,
    {
        if from < start {
            let next = from + self.line_at(from).len() + 1;
            let (k, i) = choose|k: int, i: int| self.holds_line(k, i, from);
            let (m, j) = choose|m: int, j: int| self.holds_line(m, j, start);
            self.lemma_line_unique(k, i, from);
            self.lemma_row_bounds(k, i);
            self.lemma_row_bounds(m, j);
            if m < k {
                assert(self.chunks@[m].offset_end <= self.chunks@[k].offset_begin);
            } else if k < m {
                assert(self.chunks@[k].offset_end <= self.chunks@[m].offset_begin);
            } else if j <= i {
                lemma_span_monotone(self.chunks@[k].lines(), j, i);
            } else {
                lemma_span_monotone(self.chunks@[k].lines(), i + 1, j);
            }
            assert(next <= start);
            self.lemma_early_run_holds(target, next, to, start);
        }
    }

    /// True when `index` is the first of the sampled rows of the first chunk
    /// in which a timestamp is found.
    pub open spec fn first_stamped(&self, index: int) -> bool {
        let rows = self.chunks@[0].lines();
        &&& 0 <= index < rows.len()
        &&& index < SAMPLE_LINE_COUNT
        &&& spec_detect(rows[index]) is Some
        &&& forall|i: int| 0 <= i < index ==> spec_detect(#[trigger] rows[i]) is None
    }

    /// True when `after` keeps what a look at the sampled rows of the first
    /// chunk gives: the format of the first of them in which a timestamp is
    /// found, with the day of that timestamp; no format where none of them
    /// starts with a timestamp.
    pub open spec fn sampled(&self, after: &Document) -> bool {
        match after.log_timestamp_format {
            Some(format) => exists|index: int|
                {
                    &&& #[trigger] self.first_stamped(index)
                    &&& spec_detect(self.chunks@[0].lines()[index]) == Some(format@)
                    &&& after.log_default_date matches Some(date)
                    &&& datetime_prefix(self.chunks@[0].lines()[index], format@) matches Some(
                        numbers,
                    )
                    &&& numbers.0 == date.days
                },
            None => forall|i: int|
                0 <= i < self.chunks@[0].lines().len() && i < SAMPLE_LINE_COUNT ==> spec_detect(
                    #[trigger] self.chunks@[0].lines()[i],
                ) is None,
        }
    }

    /// Looks for a timestamp in the first rows of the first chunk, a hundred
    /// at most, and keeps the format of the first that is found with its
    /// date.
    pub fn load_log_timestamp_format_and_default_date(&mut self)
        requires
            old(self).wf(),
            old(self).log_timestamp_format is None,
            old(self).chunks@.len() > 0,
        ensures
            final(self).wf(),
            final(self).chunks == old(self).chunks,
            final(self).last_line == old(self).last_line,
            final(self).document_size == old(self).document_size,
            final(self).default_chunk_size == old(self).default_chunk_size,
            old(self).sampled(final(self)),
    {
        let row_count = self.chunks[0].rows.len();
        let mut index: usize = 0;
        while index < row_count && index < SAMPLE_LINE_COUNT
            invariant
                *self == *old(self),
                old(self).wf(),
                old(self).log_timestamp_format is None,
                self.chunks@.len() > 0,
                index <= row_count == self.chunks@[0].rows@.len(),
                forall|i: int|
                    0 <= i < index ==> spec_detect(#[trigger] self.chunks@[0].lines()[i]) is None,
            decreases row_count - index,
        {
            let format = detect_log_timstamp_format(self.chunks[0].rows[index].as_slice());
            if let Some(format) = format {
                let parsed = parse_datetime_prefix(
                    self.chunks[0].rows[index].as_slice(),
                    format.as_str(),
                );
                if let Some(datetime) = parsed {
                    assert(self.first_stamped(index as int));
                    self.log_default_date = Some(datetime.date);
                    self.log_timestamp_format = Some(format);
                    return ;
                }
            }
            index += 1;
        }
    }

    /// The start of the first loaded line, from the start of the chunk that
    /// covers `offset_begin` on, whose timestamp has reached `target`;
    /// `offset_end` where the lines up to it are all early.
    #[verifier::rlimit(30)]
    pub fn linear_search_timestamp(
        &self,
        offset_begin: usize,
        offset_end: usize,
        target: LogDateTime,
    ) -> (found: Fetch<usize>)
        requires
            self.wf(),
            self.log_timestamp_format is Some,
            offset_end <= self.last_line_start(),
        ensures
            match found {
                Fetch::Ready(offset) => exists|from: int, to: int|
                    {
                        &&& #[trigger] self.early_run(target, from, to)
                        &&& self.scan_start(offset_begin as int, offset_end as int, from)
                        &&& (offset == to && self.line_known(to) && self.is_late(
                            self.line_at(to),
                            target,
                        )) || (offset == offset_end && to >= offset_end)
                    },
                Fetch::Missing(at) => !self.covered(at as int) && at < offset_end,
            },
    {
        let format = match &self.log_timestamp_format {
            Some(format) => format.as_str(),
            None => "",
        };
        let mut offset = offset_begin;
        let ghost mut from = offset_begin as int;
        proof {
            if offset < offset_end {
                if self.covered(offset as int) {
                    let k = choose|k: int|
                        0 <= k < self.chunks@.len() && #[trigger] self.covered_by(k, offset as int);
                    from = self.chunks@[k].offset_begin as int;
                }
            }
        }
        while offset < offset_end
            invariant
                self.wf(),
                self.log_timestamp_format matches Some(kept) && kept@ == format@,
                offset_end <= self.last_line_start(),
                self.scan_start(offset_begin as int, offset_end as int, from),
                offset == offset_begin || self.early_run(target, from, offset as int),
                offset == offset_begin ==> offset < offset_end && self.covered(offset as int)
                    ==> exists|k: int|
                    0 <= k < self.chunks@.len() && #[trigger] self.covered_by(k, offset as int)
                        && from
                        == self.chunks@[k].offset_begin,
                offset != offset_begin ==> exists|j: int|
                    0 <= j < self.chunks@.len()
                        && offset == (#[trigger] self.chunks@[j]).offset_end,
            decreases self.last_line_start() - offset,
        {
            let chunk_index = match self.get_chunk_index_by_offset(offset) {
                None => {
                    return Fetch::Missing(offset);
                },
                Some(chunk_index) => chunk_index,
            };
            let chunk = &self.chunks[chunk_index];
            proof {
                self.lemma_row_bounds(chunk_index as int, 0);
                if offset == offset_begin {
                    let k = choose|k: int|
                        0 <= k < self.chunks@.len() && #[trigger] self.covered_by(k, offset as int)
                            && from == self.chunks@[k].offset_begin;
                    if k < chunk_index {
                        assert(self.chunks@[k].offset_end <= chunk.offset_begin);
                    } else if k > chunk_index {
                        assert(chunk.offset_end <= self.chunks@[k].offset_begin);
                    }
                    assert(self.early_run(target, from, from));
                } else {
                    // the scan goes from the end of one chunk to the start of the next
                    let j = choose|j: int|
                        0 <= j < self.chunks@.len() && offset == (
                        #[trigger] self.chunks@[j]).offset_end;
                    if j < chunk_index {
                        assert(self.chunks@[j].offset_end <= chunk.offset_begin);
                    } else if j > chunk_index {
                        assert(chunk.offset_end <= self.chunks@[j].offset_begin);
                        self.lemma_row_bounds(j, 0);
                    }
                    assert(offset == chunk.offset_begin);
                }
            }
            offset = chunk.offset_begin;
            let row_count = chunk.rows.len();
            let mut index: usize = 0;
            while index < row_count
                invariant
                    self.wf(),
                    self.log_timestamp_format matches Some(kept) && kept@ == format@,
                    chunk_index < self.chunks@.len(),
                    *chunk == self.chunks@[chunk_index as int],
                    index <= row_count == chunk.rows@.len(),
                    offset == chunk.row_start(index as int),
                    offset <= self.last_line_start(),
                    self.scan_start(offset_begin as int, offset_end as int, from),
                    self.early_run(target, from, offset as int),
                decreases row_count - index,
            {
                proof {
                    self.lemma_row_bounds(chunk_index as int, index as int);
                    self.lemma_line_unique(chunk_index as int, index as int, offset as int);
                }
                if let Some(datetime) = parse_datetime_prefix(chunk.rows[index].as_slice(), format) {
                    if datetime.has_reached(&target) {
                        return Fetch::Ready(offset);
                    }
                }
                proof {
                    self.lemma_early_run_extends(target, from, offset as int);
                }
                offset += chunk.rows[index].len() + 1;
                index += 1;
            }
            proof {
                self.lemma_row_bounds(chunk_index as int, 0);
            }
        }
        proof {
            if offset == offset_begin {
                assert(self.early_run(target, from, from));
            }
            assert(self.early_run(target, from, offset as int));
        }
        Fetch::Ready(offset_end)
    }

    /// True when `from` is where a scan from `offset_begin` up to
    /// `offset_end` starts: at the start of the chunk that covers
    /// `offset_begin`, or at `offset_begin` itself where there is nothing to
    /// scan or no chunk covers it.
    pub open spec fn scan_start(&self, offset_begin: int, offset_end: int, from: int) -> bool {
        if offset_begin < offset_end && self.covered(offset_begin) {
            exists|k: int|
                0 <= k < self.chunks@.len() && #[trigger] self.covered_by(k, offset_begin) && from
                    == self.chunks@[k].offset_begin
        } else {
            from == offset_begin
        }
    }

    /// The date and time that is looked for: the time with the date given,
    /// or with the date of the first timestamp of the log where none is
    /// given.
    pub open spec fn target_of(&self, date: Option<LogDate>, time: LogTime) -> LogDateTime {
        LogDateTime {
            date: match date {
                Some(date) => date,
                None => self.log_default_date->0,
            },
            time,
        }
    }

    /// True when a run of lines that starts at `from` is known to start
    /// where no earlier line can have reached `target`: at the start of the
    /// document, or at or before a loaded line that starts with a timestamp
    /// which has not reached `target`.
    pub open spec fn run_anchored(&self, target: LogDateTime, from: int) -> bool {
        from == 0 || exists|early: int|
            {
                &&& #[trigger] self.line_known(early)
                &&& from <= early
                &&& self.timestamp_of(self.line_at(early)) is Some
                &&& !self.is_late(self.line_at(early), target)
            }
    }

    /// True when the lines from an anchored offset up to `offset` are
    /// loaded and early.
    pub open spec fn early_before(&self, target: LogDateTime, offset: int) -> bool {
        exists|from: int|
            from <= offset && #[trigger] self.early_run(target, from, offset) && self.run_anchored(
                target,
                from,
            )
    }

    /// True when the timestamps of the loaded lines never go back: of two
    /// loaded lines that start with a timestamp, the later line has reached
    /// the timestamp of the earlier one.
    pub open spec fn stamps_ordered(&self) -> bool {
        forall|a: int, b: int|
            #![trigger self.line_known(a), self.line_known(b)]
            self.line_known(a) && self.line_known(b) && a <= b ==> match (
                self.timestamp_of(self.line_at(a)),
                self.timestamp_of(self.line_at(b)),
            ) {
                (Some(first), Some(second)) => numbers_reached(second, first),
                _ => true,
            }
    }

    /// True when no loaded line that starts before `offset` has reached
    /// `target`.
    pub open spec fn none_late_before(&self, target: LogDateTime, offset: int) -> bool {
        forall|start: int| #[trigger]
            self.line_known(start) && start < offset ==> !self.is_late(
                self.line_at(start),
                target,
            )
    }

    /// True when a loaded line without a timestamp stands directly before
    /// the last line, or directly before a loaded line that has reached
    /// `target`.
    pub open spec fn untimed_at_bound(&self, target: LogDateTime) -> bool {
        exists|start: int|
            {
                let next = start + self.line_at(start).len() + 1;
                &&& #[trigger] self.line_known(start)
                &&& self.timestamp_of(self.line_at(start)) is None
                &&& next == self.last_line_start() || (self.line_known(next) && self.is_late(
                    self.line_at(next),
                    target,
                ))
            }
    }

    /// True when `after` and `found` are what the search for the date and
    /// time given makes of this document. A document without chunks stays
    /// as it is and gives 0. Otherwise only the format of the timestamps
    /// and the date that stands for a missing date may be new, and they are
    /// what the sampled rows give. Without a format nothing is found. With
    /// one, `found` is the start of a line that has reached the date and
    /// time, or the start of the last line, with early lines from an
    /// anchored offset up to it, so that no loaded line before it has
    /// reached them where the timestamps never go back; nothing is found
    /// where the halving ends at a line without a timestamp.
    pub open spec fn timestamp_sought(
        &self,
        after: &Document,
        date: Option<LogDate>,
        time: LogTime,
        found: Fetch<Option<usize>>,
    ) -> bool {
        if self.chunks@.len() == 0 {
            found == Fetch::Ready(Some(0usize)) && *after == *self
        } else {
            let target = after.target_of(date, time);
            &&& after.chunks == self.chunks
            &&& after.last_line == self.last_line
            &&& after.document_size == self.document_size
            &&& after.default_chunk_size == self.default_chunk_size
            &&& if self.log_timestamp_format is Some {
                after.log_timestamp_format == self.log_timestamp_format && after.log_default_date
                    == self.log_default_date
            } else {
                self.sampled(after)
            }
            &&& match found {
                Fetch::Ready(Some(offset)) => {
                    &&& after.log_timestamp_format is Some
                    &&& offset <= after.last_line_start()
                    &&& offset == after.last_line_start() || (after.line_known(offset as int)
                        && after.is_late(after.line_at(offset as int), target))
                    &&& after.early_before(target, offset as int)
                    &&& after.stamps_ordered() ==> after.none_late_before(target, offset as int)
                },
                Fetch::Ready(None) => after.log_timestamp_format is None
                    || after.untimed_at_bound(target),
                Fetch::Missing(at) => !after.covered(at as int) && at < after.last_line_start()
                    && after.log_timestamp_format is Some,
            }
        }
    }

    /// The offset of the first line whose timestamp has reached the date
    /// and time given, found by halving the document and then scanning line
    /// by line; the start of the last line where no line before it has
    /// reached it. A document without chunks gives 0. `None` where no format
    /// of timestamps is found in the first chunk, or where the halving runs
    /// into lines without timestamps up to its upper bound.
    #[verifier::rlimit(40)]
    pub fn query_offset_by_timestamp(&mut self, date: Option<LogDate>, time: LogTime) -> (found:
        Fetch<Option<usize>>)
        requires
            old(self).wf(),
        ensures
            final(self).wf(),
            old(self).timestamp_sought(final(self), date, time, found),
    {
        if self.chunks.len() == 0 {
            // empty file or only single line
            return Fetch::Ready(Some(0));
        }
        if self.log_timestamp_format.is_none() {
            self.load_log_timestamp_format_and_default_date();
        }
        let (timestamp_format, default_date) = match (
            &self.log_timestamp_format,
            self.log_default_date,
        ) {
            (Some(format), Some(default_date)) => (format.clone(), default_date),
            _ => {
                // cannot detect log timestamp format or default date
                return Fetch::Ready(None);
            },
        };
        let day = match date {
            Some(day) => day,
            None => default_date,
        };
        let target = LogDateTime::new(day, time);
        assert(target == self.target_of(date, time));
        let mut offset_begin: usize = 0;
        let mut offset_end = self.last_line_start_offset();
        let mut offset = offset_end / 2;
        let ghost mut late_start: int = 0;
        let ghost mut early_start: int = 0;
        proof {
            self.lemma_row_bounds(0, 0);
        }
        loop
            invariant
                self.wf(),
                self.chunks == old(self).chunks,
                self.last_line == old(self).last_line,
                self.document_size == old(self).document_size,
                self.default_chunk_size == old(self).default_chunk_size,
                old(self).chunks@.len() > 0,
                old(self).log_timestamp_format is Some
                    ==> self.log_timestamp_format == old(self).log_timestamp_format
                    && self.log_default_date == old(self).log_default_date,
                old(self).log_timestamp_format is None ==> old(self).sampled(self),
                target == self.target_of(date, time),
                self.log_timestamp_format matches Some(kept) && kept@ == timestamp_format@,
                offset_begin <= offset < offset_end <= self.last_line_start(),
                offset_end - offset_begin >= 2 ==> offset_begin < offset,
                offset_end == self.last_line_start() || (self.line_known(late_start)
                    && self.is_late(
                    self.line_at(late_start),
                    target,
                ) && late_start <= offset_end < late_start + self.line_at(late_start).len() + 1),
                offset_begin == 0 || (self.line_known(early_start) && self.timestamp_of(
                    self.line_at(early_start),
                ) is Some && !self.is_late(self.line_at(early_start), target) && early_start
                    <= offset_begin < early_start + self.line_at(early_start).len() + 1),
            decreases offset_end - offset_begin, offset_end - offset,
        {
            let chunk_index = match self.get_chunk_index_by_offset(offset) {
                None => {
                    return Fetch::Missing(offset);
                },
                Some(chunk_index) => chunk_index,
            };
            let chunk = &self.chunks[chunk_index];
            let index = chunk.query_line_index(offset);
            let row_count = chunk.rows.len();
            proof {
                self.lemma_row_bounds(chunk_index as int, index as int);
                self.lemma_line_unique(
                    chunk_index as int,
                    index as int,
                    chunk.row_start(index as int),
                );
            }
            match parse_datetime_prefix(chunk.rows[index].as_slice(), timestamp_format.as_str()) {
                Some(datetime) => {
                    if datetime.has_reached(&target) {
                        offset_end = offset;
                        proof {
                            late_start = chunk.row_start(index as int);
                            if offset_begin == offset_end && offset_begin != 0 {
                                // one line cannot be early and late
                                let (k, i) = choose|k: int, i: int|
                                    self.holds_line(k, i, early_start);
                                self.lemma_line_unique(k, i, early_start);
                                self.lemma_row_bounds(k, i);
                                if k < chunk_index {
                                    assert(self.chunks@[k].offset_end <= chunk.offset_begin);
                                } else if k > chunk_index {
                                    assert(chunk.offset_end <= self.chunks@[k].offset_begin);
                                } else if i < index {
                                    lemma_span_monotone(chunk.lines(), i + 1, index as int);
                                } else if index < i {
                                    lemma_span_monotone(chunk.lines(), index + 1, i);
                                }
                            }
                        }
                    } else {
                        offset_begin = offset;
                        proof {
                            early_start = chunk.row_start(index as int);
                        }
                    }
                    if offset_end - offset_begin <= DEFAULT_CHUNK_SIZE {
                        let scanned = self.linear_search_timestamp(offset_begin, offset_end, target);
                        match scanned {
                            Fetch::Missing(at) => {
                                return Fetch::Missing(at);
                            },
                            Fetch::Ready(found) => {
                                proof {
                                    self.lemma_scan_ends_at_line(
                                        offset_begin as int,
                                        offset_end as int,
                                        target,
                                        late_start,
                                        early_start,
                                        found as int,
                                    );
                                    if self.stamps_ordered() {
                                        self.lemma_first_late(target, found as int);
                                    }
                                }
                                return Fetch::Ready(Some(found));
                            },
                        }
                    }
                    offset = offset_begin + (offset_end - offset_begin) / 2;
                },
                None => {
                    // a log line without timestamp, try next line
                    offset = chunk.query_line_start_offset(index + 1);
                    if offset >= offset_end {
                        proof {
                            self.lemma_untimed_at_bound(
                                chunk_index as int,
                                index as int,
                                offset_end as int,
                                target,
                                late_start,
                            );
                        }
                        return Fetch::Ready(None);
                    }
                },
            }
        }
    }

    /// What a scan up to a bound returns is the start of a late line, or the
    /// start of the last line, with early lines before it, where the bound
    /// is the start of the last line or lies in a late line.
    #[verifier::rlimit(30)]
    pub proof fn lemma_scan_ends_at_line(
        &self,
        offset_begin: int,
        offset_end: int,
        target: LogDateTime,
        late_start: int,
        early_start: int,
        found: int,
    )
        requires
            self.wf(),
            offset_begin <= offset_end <= self.last_line_start(),
            offset_begin == 0 || (offset_begin < offset_end && self.line_known(early_start)
                && self.timestamp_of(self.line_at(early_start)) is Some && !self.is_late(
                self.line_at(early_start),
                target,
            ) && early_start <= offset_begin < early_start + self.line_at(early_start).len() + 1),
            offset_begin < offset_end || offset_end == late_start || offset_end
                == self.last_line_start(),
            offset_end == self.last_line_start() || (self.line_known(late_start) && self.is_late(
                self.line_at(late_start),
                target,
            ) && late_start <= offset_end < late_start + self.line_at(late_start).len() + 1),
            exists|from: int, to: int|
                {
                    &&& #[trigger] self.early_run(target, from, to)
                    &&& self.scan_start(offset_begin, offset_end, from)
                    &&& (found == to && self.line_known(to) && self.is_late(
                        self.line_at(to),
                        target,
                    )) || (found == offset_end && to >= offset_end)
                },
        ensures
            found <= self.last_line_start(),
            found == self.last_line_start() || (self.line_known(found) && self.is_late(
                self.line_at(found),
                target,
            )),
            self.early_before(target, found),
    {
        let (from, to) = choose|from: int, to: int|
            {
                &&& #[trigger] self.early_run(target, from, to)
                &&& self.scan_start(offset_begin, offset_end, from)
                &&& (found == to && self.line_known(to) && self.is_late(self.line_at(to), target))
                    || (found == offset_end && to >= offset_end)
            };
        self.lemma_early_run_bounds(target, from, to);
        if found == to && self.line_known(to) && self.is_late(self.line_at(to), target) {
            let (k, i) = choose|k: int, i: int| self.holds_line(k, i, to);
            self.lemma_row_bounds(k, i);
        } else if offset_end != self.last_line_start() {
            let (m, j) = choose|m: int, j: int| self.holds_line(m, j, late_start);
            self.lemma_line_unique(m, j, late_start);
            self.lemma_row_bounds(m, j);
            if late_start < to {
                // the late line would be one of the early lines of the run
                if offset_begin < offset_end && self.covered(offset_begin) {
                    let k = choose|k: int|
                        0 <= k < self.chunks@.len() && #[trigger] self.covered_by(k, offset_begin)
                            && from == self.chunks@[k].offset_begin;
                    if m < k {
                        assert(self.chunks@[m].offset_end <= self.chunks@[k].offset_begin);
                    } else if m > k {
                        assert(self.chunks@[k].offset_end <= self.chunks@[m].offset_begin);
                    }
                } else if offset_begin < offset_end {
                    assert(from == offset_begin);
                    assert(self.line_known(from));
                    self.lemma_known_is_covered(from);
                }
                assert(from <= late_start);
                self.lemma_early_run_holds(target, from, to, late_start);
            }
            assert(found == late_start && to == found);
        } else {
            // line starts lie at or before the start of the last line
            if from < to {
                self.lemma_early_run_stays(target, from, to);
            } else if offset_begin < offset_end && self.covered(offset_begin) {
                let k = choose|k: int|
                    0 <= k < self.chunks@.len() && #[trigger] self.covered_by(k, offset_begin)
                        && from
                        == self.chunks@[k].offset_begin;
                self.lemma_row_bounds(k, 0);
            }
            assert(to == found);
        }
        assert(from <= found && self.early_run(target, from, found));
        if offset_begin != 0 {
            let (m, j) = choose|m: int, j: int| self.holds_line(m, j, early_start);
            self.lemma_line_unique(m, j, early_start);
            self.lemma_row_bounds(m, j);
            assert(self.covered_by(m, offset_begin));
            let k = choose|k: int|
                0 <= k < self.chunks@.len() && #[trigger] self.covered_by(k, offset_begin) && from
                    == self.chunks@[k].offset_begin;
            if m < k {
                assert(self.chunks@[m].offset_end <= self.chunks@[k].offset_begin);
            } else if m > k {
                assert(self.chunks@[k].offset_end <= self.chunks@[m].offset_begin);
            }
            assert(from <= early_start);
        } else if offset_begin < offset_end && self.covered(offset_begin) {
            let k = choose|k: int|
                0 <= k < self.chunks@.len() && #[trigger] self.covered_by(k, offset_begin) && from
                    == self.chunks@[k].offset_begin;
        }
        assert(self.run_anchored(target, from));
    }

    /// Two rows of the document that are not the same row do not overlap.
    pub proof fn lemma_rows_apart(&self, k: int, i: int, m: int, j: int)
        requires
            self.wf(),
            0 <= k < self.chunks@.len(),
            0 <= i < self.chunks@[k].rows@.len(),
            0 <= m < self.chunks@.len(),
            0 <= j < self.chunks@[m].rows@.len(),
            k != m || i != j,
        ensures
            self.chunks@[k].row_start(i + 1) <= self.chunks@[m].row_start(j)
                || self.chunks@[m].row_start(j + 1) <= self.chunks@[k].row_start(i),
    {
        self.lemma_row_bounds(k, i);
        self.lemma_row_bounds(m, j);
        if k < m {
            assert(self.chunks@[k].offset_end <= self.chunks@[m].offset_begin);
        } else if m < k {
            assert(self.chunks@[m].offset_end <= self.chunks@[k].offset_begin);
        } else if i < j {
            lemma_span_monotone(self.chunks@[k].lines(), i + 1, j);
        } else {
            lemma_span_monotone(self.chunks@[k].lines(), j + 1, i);
        }
    }

    /// Where the halving ends at a row without a timestamp whose end has
    /// reached the upper bound, that row stands directly before the last
    /// line or before the late line that the bound lies in.
    pub proof fn lemma_untimed_at_bound(
        &self,
        k: int,
        i: int,
        offset_end: int,
        target: LogDateTime,
        late_start: int,
    )
        requires
            self.wf(),
            0 <= k < self.chunks@.len(),
            0 <= i < self.chunks@[k].rows@.len(),
            self.timestamp_of(self.chunks@[k].lines()[i]) is None,
            self.chunks@[k].row_start(i) < offset_end <= self.chunks@[k].row_start(i + 1),
            offset_end == self.last_line_start() || (self.line_known(late_start) && self.is_late(
                self.line_at(late_start),
                target,
            ) && late_start <= offset_end < late_start + self.line_at(late_start).len() + 1),
        ensures
            self.untimed_at_bound(target),
    {
        let start = self.chunks@[k].row_start(i);
        self.lemma_row_bounds(k, i);
        self.lemma_line_unique(k, i, start);
        if offset_end != self.last_line_start() {
            let (m, j) = choose|m: int, j: int| self.holds_line(m, j, late_start);
            self.lemma_line_unique(m, j, late_start);
            self.lemma_row_bounds(m, j);
            self.lemma_rows_apart(k, i, m, j);
        }
        assert(self.line_known(start));
    }

    /// Where the timestamps never go back, no loaded line before the end of
    /// an anchored run of early lines has reached the date and time.
    pub proof fn lemma_first_late(&self, target: LogDateTime, offset: int)
        requires
            self.wf(),
            self.stamps_ordered(),
            self.early_before(target, offset),
        ensures
            self.none_late_before(target, offset),
    {
        let from = choose|from: int|
            from <= offset && #[trigger] self.early_run(target, from, offset) && self.run_anchored(
                target,
                from,
            );
        assert forall|start: int| #[trigger]
            self.line_known(start) && start < offset implies !self.is_late(
            self.line_at(start),
            target,
        ) by {
            let (k, i) = choose|k: int, i: int| self.holds_line(k, i, start);
            self.lemma_row_bounds(k, i);
            if start >= from {
                self.lemma_early_run_holds(target, from, offset, start);
            } else {
                let early = choose|early: int|
                    {
                        &&& #[trigger] self.line_known(early)
                        &&& from <= early
                        &&& self.timestamp_of(self.line_at(early)) is Some
                        &&& !self.is_late(self.line_at(early), target)
                    };
                assert(self.line_known(start) && self.line_known(early) && start <= early);
            }
        }
    }

    /// A run of lines goes forward.
    pub proof fn lemma_early_run_bounds(&self, target: LogDateTime, from: int, to: int)
        requires
            self.early_run(target, from, to),
        ensures
            from <= to,
        decreases to - from,
    {
        if from < to {
            self.lemma_early_run_bounds(target, from + self.line_at(from).len() + 1, to);
        }
    }

    /// A run of loaded lines ends at or before the start of the last line.
    pub proof fn lemma_early_run_stays(&self, target: LogDateTime, from: int, to: int)
        requires
            self.wf(),
            self.early_run(target, from, to),
            from < to,
        ensures
            to <= self.last_line_start(),
        decreases to - from,
    {
        let next = from + self.line_at(from).len() + 1;
        let (k, i) = choose|k: int, i: int| self.holds_line(k, i, from);
        self.lemma_line_unique(k, i, from);
        self.lemma_row_bounds(k, i);
        if next < to {
            self.lemma_early_run_stays(target, next, to);
        }
    }
}

} // verus!
