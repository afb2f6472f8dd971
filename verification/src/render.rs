//! A line of bytes with styled ranges that do not overlap, and the algebra
//! of cutting such a line.

use crate::finder::{render_dim, HighlightOption};
use std::ops::Range;
use vstd::prelude::*;
use vstd::slice::{slice_subrange, slice_to_vec};

verus! {

/// How a range of a line is drawn.
#[derive(Debug, Clone, Copy, PartialEq, Eq, Structural)]
pub enum RenderScheme {
    Dim,
    Highlight(HighlightOption),
}

/// A range of bytes of a line, from `start` up to `end`, and how it is drawn.
#[derive(Debug, Clone, Copy, PartialEq, Eq, Structural)]
pub struct StyledRange {
    pub start: usize,
    pub end: usize,
    pub scheme: RenderScheme,
}

/// A line as a mathematical value: its bytes and its styled ranges in the
/// order in which they were added.
pub ghost struct LineView {
    pub content: Seq<u8>,
    pub schemes: Seq<StyledRange>,
}

/// A line of bytes with styled ranges.
#[derive(Debug, Clone)]
pub struct LineWithRenderScheme {
    content: Vec<u8>,
    render_schemes: Vec<StyledRange>,
}

/// True when the two ranges share a byte position, by the rule that takes
/// no account of which bound of a range is the larger: each starts before
/// the other ends.
pub open spec fn spec_ranges_have_overlap(
    start_1: int,
    end_1: int,
    start_2: int,
    end_2: int,
) -> bool {
    start_1 < end_2 && end_1 > start_2
}

/// Tells whether the two ranges overlap.
pub fn ranges_have_overlap(r1: Range<usize>, r2: Range<usize>) -> (overlap: bool)
    ensures
        overlap == spec_ranges_have_overlap(
            r1.start as int,
            r1.end as int,
            r2.start as int,
            r2.end as int,
        ),
{
    r1.start < r2.end && r1.end > r2.start
}

/// True when no two of `schemes` overlap.
pub open spec fn apart(schemes: Seq<StyledRange>) -> bool {
    forall|i: int, j: int|
        0 <= i < j < schemes.len() ==> !spec_ranges_have_overlap(
            (#[trigger] schemes[i]).start as int,
            schemes[i].end as int,
            (#[trigger] schemes[j]).start as int,
            schemes[j].end as int,
        )
}

/// True when `start..end` overlaps none of `schemes`.
pub open spec fn clear_of(schemes: Seq<StyledRange>, start: int, end: int) -> bool {
    forall|i: int|
        0 <= i < schemes.len() ==> !spec_ranges_have_overlap(
            start,
            end,
            (#[trigger] schemes[i]).start as int,
            schemes[i].end as int,
        )
}

/// The part of `range` between `start` and `end`, counted from `start`.
pub open spec fn cut_range(range: StyledRange, start: int, end: int) -> StyledRange {
    StyledRange {
        start: (if range.start > start {
            range.start - start
        } else {
            0
        }) as usize,
        end: (if range.end < end {
            range.end - start
        } else {
            end - start
        }) as usize,
        scheme: range.scheme,
    }
}

/// True when a part of `range` lies between `start` and `end`.
pub open spec fn reaches(range: StyledRange, start: int, end: int) -> bool {
    (if range.start > start {
        range.start as int
    } else {
        start
    }) < (if range.end < end {
        range.end as int
    } else {
        end
    })
}

/// The parts of `schemes` between `start` and `end`, counted from `start`,
/// in their order; ranges of which no part lies there are left out.
pub open spec fn cut_schemes(schemes: Seq<StyledRange>, start: int, end: int) -> Seq<StyledRange>
    decreases schemes.len(),
{
    if schemes.len() == 0 {
        Seq::empty()
    } else if reaches(schemes.last(), start, end) {
        cut_schemes(schemes.drop_last(), start, end).push(cut_range(schemes.last(), start, end))
    } else {
        cut_schemes(schemes.drop_last(), start, end)
    }
}

/// The bytes of `content` from `start` up to `end`, as far as it has them.
pub open spec fn cut_content(content: Seq<u8>, start: int, end: int) -> Seq<u8> {
    let stop = if end < content.len() {
        end
    } else {
        content.len() as int
    };
    if start >= stop {
        Seq::empty()
    } else {
        content.subrange(start, stop)
    }
}

/// The line `line` cut to the bytes from `start` up to `end`.
pub open spec fn cut(line: LineView, start: int, end: int) -> LineView {
    LineView {
        content: cut_content(line.content, start, end),
        schemes: cut_schemes(line.schemes, start, end),
    }
}

/// Every range that a cut keeps comes from a range of the line.
pub proof fn lemma_cut_schemes_origin(schemes: Seq<StyledRange>, start: int, end: int, k: int)
    requires
        0 <= k < cut_schemes(schemes, start, end).len(),
    ensures
        exists|i: int|
            0 <= i < schemes.len() && reaches(#[trigger] schemes[i], start, end) && cut_schemes(
                schemes,
                start,
                end,
            )[k] == cut_range(schemes[i], start, end),
    decreases schemes.len(),
{
    let rest = cut_schemes(schemes.drop_last(), start, end);
    if reaches(schemes.last(), start, end) && k == rest.len() {
        assert(schemes[schemes.len() - 1] == schemes.last());
    } else {
        lemma_cut_schemes_origin(schemes.drop_last(), start, end, k);
        let i = choose|i: int|
            0 <= i < schemes.drop_last().len() && reaches(
                #[trigger] schemes.drop_last()[i],
                start,
                end,
            ) && rest[k] == cut_range(schemes.drop_last()[i], start, end);
        assert(schemes[i] == schemes.drop_last()[i]);
    }
}

/// Ranges that do not overlap still do not overlap when cut.
pub proof fn lemma_cut_keeps_apart(schemes: Seq<StyledRange>, start: int, end: int)
    requires
        apart(schemes),
        0 <= start,
    ensures
        apart(cut_schemes(schemes, start, end)),
    decreases schemes.len(),
{
    if schemes.len() > 0 {
        let rest = cut_schemes(schemes.drop_last(), start, end);
        assert(apart(schemes.drop_last())) by {
            assert forall|i: int, j: int| 0 <= i < j < schemes.drop_last().len() implies
                !spec_ranges_have_overlap(
                (#[trigger] schemes.drop_last()[i]).start as int,
                schemes.drop_last()[i].end as int,
                (#[trigger] schemes.drop_last()[j]).start as int,
                schemes.drop_last()[j].end as int,
            ) by {
                assert(schemes.drop_last()[i] == schemes[i]);
                assert(schemes.drop_last()[j] == schemes[j]);
            }
        }
        lemma_cut_keeps_apart(schemes.drop_last(), start, end);
        if reaches(schemes.last(), start, end) {
            let last = cut_range(schemes.last(), start, end);
            let all = rest.push(last);
            assert forall|a: int, b: int| 0 <= a < b < all.len() implies !spec_ranges_have_overlap(
                (#[trigger] all[a]).start as int,
                all[a].end as int,
                (#[trigger] all[b]).start as int,
                all[b].end as int,
            ) by {
                if b == rest.len() {
                    lemma_cut_schemes_origin(schemes.drop_last(), start, end, a);
                    let i = choose|i: int|
                        0 <= i < schemes.drop_last().len() && reaches(
                            #[trigger] schemes.drop_last()[i],
                            start,
                            end,
                        ) && rest[a] == cut_range(schemes.drop_last()[i], start, end);
                    assert(schemes.drop_last()[i] == schemes[i]);
                    assert(schemes[schemes.len() - 1] == schemes.last());
                } else {
                    assert(all[a] == rest[a]);
                    assert(all[b] == rest[b]);
                }
            }
        }
    }
}

/// True when every range of `line` holds at least one byte and lies within
/// the content.
pub open spec fn filled(line: LineView) -> bool {
    forall|i: int|
        0 <= i < line.schemes.len() ==> (#[trigger] line.schemes[i]).start < line.schemes[i].end
            <= line.content.len()
}

/// True when `line` can be rendered: every range lies within the content,
/// and no range without bytes was added after a range with bytes that
/// starts where it stands.
pub open spec fn renderable(line: LineView) -> bool {
    &&& forall|i: int|
        0 <= i < line.schemes.len() ==> (#[trigger] line.schemes[i]).start <= line.schemes[i].end
            <= line.content.len()
    &&& forall|i: int, j: int|
        0 <= i < j < line.schemes.len() && (#[trigger] line.schemes[i]).start == (
        #[trigger] line.schemes[j]).start && line.schemes[i].start < line.schemes[i].end
            ==> line.schemes[j].start < line.schemes[j].end
}

/// A line whose ranges all hold a byte can be rendered.
pub proof fn lemma_filled_is_renderable(line: LineView)
    requires
        filled(line),
    ensures
        renderable(line),
{
}

/// A line that can be rendered can still be rendered with one more range
/// that lies within the content, unless that range holds no byte and a
/// range with bytes starts where it stands.
pub proof fn lemma_added_is_renderable(line: LineView, range: StyledRange)
    requires
        renderable(line),
        range.start <= range.end <= line.content.len(),
        range.start == range.end ==> forall|i: int|
            0 <= i < line.schemes.len() && (#[trigger] line.schemes[i]).start == range.start
                ==> line.schemes[i].end == range.start,
    ensures
        renderable((LineView { content: line.content, schemes: line.schemes.push(range) })),
{
}

/// True when range `i` of `schemes` is the next to be rendered at `cursor`,
/// the ranges before `skip` that start at `cursor` being done: it is the
/// first to start among the ranges left, and of those that start with it
/// the one that was added first.
pub open spec fn is_first_from(schemes: Seq<StyledRange>, i: int, cursor: int, skip: int) -> bool {
    &&& 0 <= i < schemes.len()
    &&& is_left(schemes[i], i, cursor, skip)
    &&& forall|j: int|
        0 <= j < schemes.len() && is_left(#[trigger] schemes[j], j, cursor, skip)
            ==> schemes[i].start < schemes[j].start || (schemes[i].start == schemes[j].start && i
            <= j)
}

/// True when `range`, the range `i` of a line, is still to be rendered at
/// `cursor`: it starts after `cursor`, or it starts there and is none of
/// the ranges before `skip`.
pub open spec fn is_left(range: StyledRange, i: int, cursor: int, skip: int) -> bool {
    range.start > cursor || (range.start == cursor && i >= skip)
}

/// The bytes of `line` from `cursor` on, with each range that is left at
/// `cursor` replaced by its piece of `pieces`: the ranges in the order of
/// their starts, those that start at one place in the order in which they
/// were added.
pub open spec fn composed(line: LineView, pieces: Seq<Seq<u8>>, cursor: int, skip: int) -> Seq<u8>
    decreases line.content.len() - cursor, line.schemes.len() - skip,
{
    if exists|i: int| is_first_from(line.schemes, i, cursor, skip) {
        let i = choose|i: int| is_first_from(line.schemes, i, cursor, skip);
        let range = line.schemes[i];
        if range.start < range.end <= line.content.len() {
            line.content.subrange(cursor, range.start as int) + pieces[i] + composed(
                line,
                pieces,
                range.end as int,
                0,
            )
        } else if range.start == range.end <= line.content.len() {
            line.content.subrange(cursor, range.start as int) + pieces[i] + composed(
                line,
                pieces,
                range.end as int,
                i + 1,
            )
        } else {
            line.content.subrange(cursor, line.content.len() as int)
        }
    } else {
        line.content.subrange(cursor, line.content.len() as int)
    }
}

/// True when `bytes` are the bytes of `line` with each range replaced by
/// some piece, followed by `ending`.
pub open spec fn is_rendering(line: LineView, ending: Seq<u8>, bytes: Seq<u8>) -> bool {
    exists|pieces: Seq<Seq<u8>>|
        pieces.len() == line.schemes.len() && bytes == #[trigger] composed(line, pieces, 0, 0)
            + ending
}

/// The byte sequences that `pieces` hold.
pub open spec fn views(pieces: Seq<Vec<u8>>) -> Seq<Seq<u8>> {
    Seq::new(pieces.len(), |i: int| pieces[i]@)
}

impl View for LineWithRenderScheme {
    type V = LineView;

    closed spec fn view(&self) -> LineView {
        LineView { content: self.content@, schemes: self.render_schemes@ }
    }
}

impl Default for LineWithRenderScheme {
    fn default() -> (line: Self)
        ensures
            line@.content.len() == 0,
            line@.schemes.len() == 0,
            line.wf(),
            filled(line@),
    {
        Self::empty()
    }
}

impl LineWithRenderScheme {
    /// The invariant of a line: no two of its ranges overlap.
    pub open spec fn wf(&self) -> bool {
        apart(self@.schemes)
    }

    /// A line of the bytes of `content` without ranges.
    pub fn new(content: &[u8]) -> (line: Self)
        ensures
            line@.content == content@,
            line@.schemes.len() == 0,
            line.wf(),
            filled(line@),
    {
        Self { content: slice_to_vec(content), render_schemes: Vec::new() }
    }

    /// A line without bytes and without ranges.
    pub fn empty() -> (line: Self)
        ensures
            line@.content.len() == 0,
            line@.schemes.len() == 0,
            line.wf(),
            filled(line@),
    {
        Self { content: Vec::new(), render_schemes: Vec::new() }
    }

    /// The bytes of the line.
    pub fn raw_content(&self) -> (content: &[u8])
        ensures
            content@ == self@.content,
    {
        self.content.as_slice()
    }

    /// The ranges of the line, in the order in which they were added.
    pub fn schemes(&self) -> (schemes: &[StyledRange])
        ensures
            schemes@ == self@.schemes,
    {
        self.render_schemes.as_slice()
    }

    /// Puts `raw_content` in place of the bytes of the line; the ranges stay.
    pub fn set_raw_content(&mut self, raw_content: &[u8])
        ensures
            final(self)@.content == raw_content@,
            final(self)@.schemes == old(self)@.schemes,
    {
        self.content = slice_to_vec(raw_content);
    }

    /// Adds the range with its scheme unless it overlaps a range that the
    /// line has.
    pub fn add_scheme_if_not_overlap(&mut self, range: Range<usize>, scheme: RenderScheme)
        requires
            old(self).wf(),
        ensures
            final(self).wf(),
            final(self)@.content == old(self)@.content,
            final(self)@.schemes == if clear_of(
                old(self)@.schemes,
                range.start as int,
                range.end as int,
            ) {
                old(self)@.schemes.push(
                    StyledRange { start: range.start, end: range.end, scheme: scheme },
                )
            } else {
                old(self)@.schemes
            },
            filled(old(self)@) && range.start < range.end <= old(self)@.content.len()
                ==> filled(final(self)@),
    {
        let mut i: usize = 0;
        while i < self.render_schemes.len()
            invariant
                i <= self.render_schemes@.len(),
                *self == *old(self),
                old(self).wf(),
                clear_of(self.render_schemes@.take(i as int), range.start as int, range.end as int),
            decreases self.render_schemes@.len() - i,
        {
            let existing = self.render_schemes[i];
            if range.start < existing.end && range.end > existing.start {
                return ;
            }
            assert forall|k: int| 0 <= k < i + 1 implies !spec_ranges_have_overlap(
                range.start as int,
                range.end as int,
                (#[trigger] self.render_schemes@.take(i + 1)[k]).start as int,
                self.render_schemes@.take(i + 1)[k].end as int,
            ) by {
                if k < i {
                    assert(self.render_schemes@.take(i + 1)[k] == self.render_schemes@.take(
                        i as int,
                    )[k]);
                }
            }
            i += 1;
        }
        assert(self.render_schemes@.take(i as int) =~= self.render_schemes@);
        self.render_schemes.push(StyledRange { start: range.start, end: range.end, scheme });
    }

    /// The line cut to the bytes from `width_range.start` up to
    /// `width_range.end`: the content as far as it reaches, and of each
    /// range the part that lies there, counted from the new start.
    pub fn substr(&self, width_range: Range<usize>) -> (line: LineWithRenderScheme)
        ensures
            line@ == cut(self@, width_range.start as int, width_range.end as int),
            self.wf() ==> line.wf(),
            filled(self@) ==> filled(line@),
    {
        let start = width_range.start;
        let end = if width_range.end < self.content.len() {
            width_range.end
        } else {
            self.content.len()
        };
        let content = if start >= end {
            Vec::new()
        } else {
            slice_to_vec(slice_subrange(self.content.as_slice(), start, end))
        };
        assert(content@ =~= cut_content(self@.content, start as int, width_range.end as int));
        let mut sub_schemes: Vec<StyledRange> = Vec::new();
        let mut i: usize = 0;
        while i < self.render_schemes.len()
            invariant
                i <= self.render_schemes@.len(),
                start == width_range.start,
                sub_schemes@ == cut_schemes(
                    self.render_schemes@.take(i as int),
                    start as int,
                    width_range.end as int,
                ),
            decreases self.render_schemes@.len() - i,
        {
            let range = self.render_schemes[i];
            let new_start = if range.start > width_range.start {
                range.start
            } else {
                width_range.start
            };
            let new_end = if range.end < width_range.end {
                range.end
            } else {
                width_range.end
            };
            assert(self.render_schemes@.take(i + 1).drop_last() =~= self.render_schemes@.take(
                i as int,
            ));
            if new_start < new_end {
                sub_schemes.push(
                    StyledRange {
                        start: new_start - width_range.start,
                        end: new_end - width_range.start,
                        scheme: range.scheme,
                    },
                );
            }
            i += 1;
        }
        assert(self.render_schemes@.take(i as int) =~= self.render_schemes@);
        proof {
            if self.wf() {
                lemma_cut_keeps_apart(self@.schemes, start as int, width_range.end as int);
            }
            if filled(self@) {
                assert forall|k: int| 0 <= k < sub_schemes@.len() implies (
                #[trigger] sub_schemes@[k]).start < sub_schemes@[k].end <= content@.len() by {
                    lemma_cut_schemes_origin(
                        self@.schemes,
                        start as int,
                        width_range.end as int,
                        k,
                    );
                }
            }
        }
        LineWithRenderScheme { content, render_schemes: sub_schemes }
    }

    /// The line cut to its first `width` bytes: the ranges beyond them are
    /// left out, and a range that reaches over them keeps the part before.
    pub fn truncate(self, width: usize) -> (line: Self)
        ensures
            line@ == cut(self@, 0, width as int),
            self.wf() ==> line.wf(),
            filled(self@) ==> filled(line@),
    {
        self.substr(0..width)
    }

    /// Takes all bytes and all ranges out of the line.
    pub fn clear(&mut self)
        ensures
            final(self)@.content.len() == 0,
            final(self)@.schemes.len() == 0,
            final(self).wf(),
            filled(final(self)@),
    {
        self.content.clear();
        self.render_schemes.clear();
    }

    /// The index of the range that is the next to be rendered at `cursor`,
    /// if there is one: the first to start at or after `cursor`, the ranges
    /// before `skip` that start at `cursor` left out.
    pub fn first_scheme_from(&self, cursor: usize, skip: usize) -> (found: Option<usize>)
        ensures
            match found {
                Some(i) => is_first_from(self@.schemes, i as int, cursor as int, skip as int),
                None => forall|i: int|
                    !is_first_from(self@.schemes, i, cursor as int, skip as int),
            },
    {
        let mut found: Option<usize> = None;
        let mut i: usize = 0;
        while i < self.render_schemes.len()
            invariant
                i <= self.render_schemes@.len(),
                match found {
                    Some(f) => f < i && is_left(
                        self.render_schemes@[f as int],
                        f as int,
                        cursor as int,
                        skip as int,
                    ) && forall|j: int|
                        0 <= j < i && is_left(
                            #[trigger] self.render_schemes@[j],
                            j,
                            cursor as int,
                            skip as int,
                        ) ==> self.render_schemes@[f as int].start < self.render_schemes@[j].start
                            || (self.render_schemes@[f as int].start
                            == self.render_schemes@[j].start && f <= j),
                    None => forall|j: int|
                        0 <= j < i ==> !is_left(
                            #[trigger] self.render_schemes@[j],
                            j,
                            cursor as int,
                            skip as int,
                        ),
                },
            decreases self.render_schemes@.len() - i,
        {
            let start = self.render_schemes[i].start;
            if start > cursor || (start == cursor && i >= skip) {
                match found {
                    Some(f) => {
                        if start < self.render_schemes[f].start {
                            found = Some(i);
                        }
                    },
                    None => {
                        found = Some(i);
                    },
                }
            }
            i += 1;
        }
        found
    }

    /// The bytes of the line with each range replaced by its piece of
    /// `pieces`, the ranges taken in the order of their starts, those that
    /// start at one place in the order in which they were added.
    pub fn compose(&self, pieces: &Vec<Vec<u8>>) -> (rendered: Vec<u8>)
        requires
            self.wf(),
            renderable(self@),
            pieces@.len() == self@.schemes.len(),
        ensures
            rendered@ == composed(self@, views(pieces@), 0, 0),
    {
        let ghost goal = composed(self@, views(pieces@), 0, 0);
        let mut rendered: Vec<u8> = Vec::new();
        let mut cursor: usize = 0;
        let mut skip: usize = 0;
        let length = self.content.len();
        let count = self.render_schemes.len();
        loop
            invariant_except_break
                rendered@ + composed(self@, views(pieces@), cursor as int, skip as int) == goal,
            invariant
                self.wf(),
                renderable(self@),
                pieces@.len() == self@.schemes.len(),
                cursor <= length == self.content@.len(),
                skip <= count == self@.schemes.len(),
                goal == composed(self@, views(pieces@), 0, 0),
            ensures
                rendered@ == goal,
            decreases length - cursor, count - skip,
        {
            let ghost before = rendered@;
            match self.first_scheme_from(cursor, skip) {
                None => {
                    rendered.extend_from_slice(slice_subrange(self.content.as_slice(), cursor, length));
                    break ;
                },
                Some(i) => {
                    let range = self.render_schemes[i];
                    proof {
                        let chosen = choose|c: int|
                            is_first_from(self@.schemes, c, cursor as int, skip as int);
                        assert(is_left(self@.schemes[chosen], chosen, cursor as int, skip as int));
                        assert(is_left(
                            self@.schemes[i as int],
                            i as int,
                            cursor as int,
                            skip as int,
                        ));
                        assert(chosen == i);
                    }
                    rendered.extend_from_slice(
                        slice_subrange(self.content.as_slice(), cursor, range.start),
                    );
                    rendered.extend_from_slice(pieces[i].as_slice());
                    let next_skip = if range.start == range.end {
                        i + 1
                    } else {
                        0
                    };
                    proof {
                        let rest = composed(
                            self@,
                            views(pieces@),
                            range.end as int,
                            next_skip as int,
                        );
                        assert(before + (self@.content.subrange(cursor as int, range.start as int)
                            + views(pieces@)[i as int] + rest) =~= rendered@ + rest);
                    }
                    cursor = range.end;
                    skip = next_skip;
                },
            }
        }
        rendered
    }

    /// The line for display: its bytes, with each range replaced by what the
    /// terminal styling makes of the bytes in it, which may be none. The
    /// ranges are taken in the order of their starts, those that start at
    /// one place in the order in which they were added.
    pub fn render(&self) -> (rendered: Vec<u8>)
        requires
            self.wf(),
            renderable(self@),
        ensures
            is_rendering(self@, Seq::empty(), rendered@),
    {
        let mut pieces: Vec<Vec<u8>> = Vec::new();
        let mut i: usize = 0;
        while i < self.render_schemes.len()
            invariant
                i <= self.render_schemes@.len(),
                pieces@.len() == i,
                renderable(self@),
            decreases self.render_schemes@.len() - i,
        {
            let range = self.render_schemes[i];
            assert(self@.schemes[i as int].start <= self@.schemes[i as int].end);
            let raw = slice_subrange(self.content.as_slice(), range.start, range.end);
            let piece = match range.scheme {
                RenderScheme::Dim => render_dim(raw),
                RenderScheme::Highlight(option) => option.render(raw),
            };
            pieces.push(piece);
            i += 1;
        }
        let rendered = self.compose(&pieces);
        assert(views(pieces@).len() == self@.schemes.len());
        assert(rendered@ =~= composed(self@, views(pieces@), 0, 0) + Seq::<u8>::empty());
        rendered
    }
}

/// Cutting ranges twice is cutting them once to the part that both cuts
/// keep, where the second cut ends within the first.
pub proof fn lemma_cut_schemes_composes(
    schemes: Seq<StyledRange>,
    a_start: int,
    a_end: int,
    b_start: int,
    b_end: int,
)
    requires
        0 <= a_start,
        0 <= b_start,
        a_start + b_end <= a_end,
        a_end <= usize::MAX,
    ensures
        cut_schemes(cut_schemes(schemes, a_start, a_end), b_start, b_end) == cut_schemes(
            schemes,
            a_start + b_start,
            a_start + b_end,
        ),
    decreases schemes.len(),
{
    if schemes.len() > 0 {
        lemma_cut_schemes_composes(schemes.drop_last(), a_start, a_end, b_start, b_end);
        let rest = cut_schemes(schemes.drop_last(), a_start, a_end);
        if reaches(schemes.last(), a_start, a_end) {
            let once = cut_range(schemes.last(), a_start, a_end);
            assert(rest.push(once).drop_last() =~= rest);
            assert(rest.push(once).last() == once);
        }
    }
}

/// Cutting a line to `a` and the result to `b` gives the line cut to the
/// part of `a` that `b` names, where `b` ends within the width of `a`.
pub proof fn lemma_substr_composes(line: LineView, a: Range<usize>, b: Range<usize>)
    requires
        a.start + b.end <= a.end,
    ensures
        cut(cut(line, a.start as int, a.end as int), b.start as int, b.end as int) == cut(
            line,
            a.start + b.start,
            a.start + b.end,
        ),
{
    lemma_cut_schemes_composes(
        line.schemes,
        a.start as int,
        a.end as int,
        b.start as int,
        b.end as int,
    );
    assert(cut_content(
        cut_content(line.content, a.start as int, a.end as int),
        b.start as int,
        b.end as int,
    ) =~= cut_content(line.content, a.start + b.start, a.start + b.end));
}


} // verus!
