//! The finder: ten pattern slots that colour the lines shown, fold them
//! away or keep only those that match.

use crate::canvas::{menu_title, push_text, spec_menu_title, Canvas, BLANK};
use crate::event_source::{KeyCode, KeyEvent};
use crate::render::{clear_of, cut_content, filled, LineWithRenderScheme, RenderScheme, StyledRange};
use crossterm::style::Stylize;
use std::collections::BTreeSet;
use std::ops::Range;
use vstd::prelude::*;
use vstd::slice::slice_subrange;
use vstd::string::StringSliceAdditionalSpecFns;
use vstd::utf8::encode_utf8;

verus! {

broadcast use vstd::std_specs::btree::group_btree_axioms;

/// The colours that the slots are drawn in.
#[derive(Debug, Clone, Copy, PartialEq, Eq, Structural)]
pub enum SlotColor {
    /// The colour that the terminal has by default.
    Default,
    Black,
    Grey,
    Blue,
    Cyan,
    Green,
    Yellow,
    Magenta,
}

/// The colours of a highlighted piece of text.
#[derive(Debug, Clone, Copy, PartialEq, Eq, Structural)]
pub struct HighlightOption {
    pub foreground_color: SlotColor,
    pub background_color: SlotColor,
}

/// The colour type of crossterm, carried through to its styling calls.
#[verifier::external_type_specification]
#[verifier::external_body]
pub struct ExTerminalColor(crossterm::style::Color);

/// The colour of crossterm that stands for `color`: its variant of the same
/// name, and `Reset` for the default colour. Nothing is claimed of the
/// value, which verified code only hands on.
#[verifier::external_body]
fn terminal_color(color: SlotColor) -> crossterm::style::Color {
    match color {
        SlotColor::Default => crossterm::style::Color::Reset,
        SlotColor::Black => crossterm::style::Color::Black,
        SlotColor::Grey => crossterm::style::Color::Grey,
        SlotColor::Blue => crossterm::style::Color::Blue,
        SlotColor::Cyan => crossterm::style::Color::Cyan,
        SlotColor::Green => crossterm::style::Color::Green,
        SlotColor::Yellow => crossterm::style::Color::Yellow,
        SlotColor::Magenta => crossterm::style::Color::Magenta,
    }
}

impl HighlightOption {
    pub fn new(foreground_color: SlotColor, background_color: SlotColor) -> (option: Self)
        ensures
            option.foreground_color == foreground_color,
            option.background_color == background_color,
    {
        Self { foreground_color, background_color }
    }

    /// The colours of the slot with the number `slot_index`.
    pub open spec fn of_slot(slot_index: int) -> Self {
        if slot_index == 1 {
            Self { foreground_color: SlotColor::Black, background_color: SlotColor::Grey }
        } else if slot_index == 2 {
            Self { foreground_color: SlotColor::Black, background_color: SlotColor::Blue }
        } else if slot_index == 3 {
            Self { foreground_color: SlotColor::Black, background_color: SlotColor::Cyan }
        } else if slot_index == 4 {
            Self { foreground_color: SlotColor::Black, background_color: SlotColor::Green }
        } else if slot_index == 5 {
            Self { foreground_color: SlotColor::Black, background_color: SlotColor::Yellow }
        } else if slot_index == 6 {
            Self { foreground_color: SlotColor::Magenta, background_color: SlotColor::Default }
        } else if slot_index == 7 {
            Self { foreground_color: SlotColor::Blue, background_color: SlotColor::Default }
        } else if slot_index == 8 {
            Self { foreground_color: SlotColor::Cyan, background_color: SlotColor::Default }
        } else if slot_index == 9 {
            Self { foreground_color: SlotColor::Green, background_color: SlotColor::Default }
        } else {
            Self { foreground_color: SlotColor::Yellow, background_color: SlotColor::Default }
        }
    }

    /// The colours of the slot with the number `slot_index`.
    pub fn from_slot_index(slot_index: usize) -> (option: Self)
        requires
            slot_index <= 9,
        ensures
            option == Self::of_slot(slot_index as int),
    {
        match slot_index {
            1 => Self::new(SlotColor::Black, SlotColor::Grey),
            2 => Self::new(SlotColor::Black, SlotColor::Blue),
            3 => Self::new(SlotColor::Black, SlotColor::Cyan),
            4 => Self::new(SlotColor::Black, SlotColor::Green),
            5 => Self::new(SlotColor::Black, SlotColor::Yellow),
            6 => Self::new(SlotColor::Magenta, SlotColor::Default),
            7 => Self::new(SlotColor::Blue, SlotColor::Default),
            8 => Self::new(SlotColor::Cyan, SlotColor::Default),
            9 => Self::new(SlotColor::Green, SlotColor::Default),
            _ => Self::new(SlotColor::Yellow, SlotColor::Default),
        }
    }

    /// `raw`, read as text, between the terminal's escape sequences for
    /// these colours. Calls `Stylize::with` and `Stylize::on` of crossterm
    /// and formats the result; nothing is claimed of the bytes that come
    /// back, which depend on the terminal settings of the process.
    #[verifier::external_body]
    pub fn render(&self, raw: &[u8]) -> (styled: Vec<u8>) {
        String::from_utf8_lossy(raw)
            .with(terminal_color(self.foreground_color))
            .on(terminal_color(self.background_color))
            .to_string()
            .into_bytes()
    }
}

/// `raw`, read as text, between the terminal's escape sequences for dim
/// text. Calls `Stylize::dim` of crossterm and formats the result; nothing
/// is claimed of the bytes that come back.
#[verifier::external_body]
pub(crate) fn render_dim(raw: &[u8]) -> (styled: Vec<u8>) {
    String::from_utf8_lossy(raw).dim().to_string().into_bytes()
}

/// Whether a slot colours what its pattern matches.
#[derive(Debug, Clone, Copy, PartialEq, Eq, Structural)]
pub enum HighlightFlag {
    On,
    Off,
}

impl HighlightFlag {
    pub fn toggle(&mut self)
        ensures
            *final(self) == match *old(self) {
                HighlightFlag::On => HighlightFlag::Off,
                HighlightFlag::Off => HighlightFlag::On,
            },
    {
        match self {
            Self::On => *self = Self::Off,
            Self::Off => *self = Self::On,
        }
    }
}

/// What a slot does to the lines that its pattern matches, beyond colouring.
#[derive(Debug, Clone, Copy, PartialEq, Eq, Structural)]
pub enum AdvancedAction {
    Nothing,
    /// Lines that match are hidden.
    Fold,
    /// Only lines that match are shown.
    Exclusive,
}

impl AdvancedAction {
    pub fn toggle_fold(&mut self)
        ensures
            *final(self) == match *old(self) {
                AdvancedAction::Fold => AdvancedAction::Nothing,
                _ => AdvancedAction::Fold,
            },
    {
        match self {
            Self::Fold => *self = Self::Nothing,
            _ => *self = Self::Fold,
        }
    }

    pub fn toggle_exclusive(&mut self)
        ensures
            *final(self) == match *old(self) {
                AdvancedAction::Exclusive => AdvancedAction::Nothing,
                _ => AdvancedAction::Exclusive,
            },
    {
        match self {
            Self::Exclusive => *self = Self::Nothing,
            _ => *self = Self::Exclusive,
        }
    }
}

/// How the pattern of a slot is read.
#[derive(Debug, Clone, Copy, PartialEq, Eq, Structural)]
pub enum PatternType {
    /// The pattern matches where its bytes occur.
    Raw,
    /// The pattern is a regular expression.
    Regex,
}

impl PatternType {
    pub fn toggle(&mut self)
        ensures
            *final(self) == match *old(self) {
                PatternType::Raw => PatternType::Regex,
                PatternType::Regex => PatternType::Raw,
            },
    {
        match self {
            Self::Raw => *self = Self::Regex,
            Self::Regex => *self = Self::Raw,
        }
    }
}

/// Why a pattern could not be matched.
#[derive(Debug, Clone, Copy, PartialEq, Eq, Structural)]
pub enum PatternError {
    /// The pattern is no regular expression that can be compiled.
    InvalidRegex,
}

/// The number of slots.
pub const FINDER_SLOT_COUNT: usize = 10;

/// The number under which the user knows the slot at `index`: the slots are
/// numbered 1, 2, .., 9, 0 in the order in which they are kept.
pub open spec fn slot_of_index(index: int) -> int {
    (index + 1) % 10
}

/// The place at which the slot with the number `slot_index` is kept.
pub open spec fn index_of_slot(slot_index: int) -> int {
    (slot_index + 9) % 10
}

pub fn array_index_to_slot_index(index: usize) -> (slot_index: usize)
    requires
        index <= 9,
    ensures
        slot_index == slot_of_index(index as int),
        slot_index <= 9,
        index_of_slot(slot_index as int) == index,
{
    (index + 1) % 10
}

pub fn array_index_from_slot_index(slot_index: usize) -> (index: usize)
    requires
        slot_index <= 9,
    ensures
        index == index_of_slot(slot_index as int),
        index <= 9,
        slot_of_index(index as int) == slot_index,
{
    (slot_index + 9) % 10
}

/// True when the bytes of `needle` stand in `haystack` at `at`.
pub open spec fn occurs_at(haystack: Seq<u8>, needle: Seq<u8>, at: int) -> bool {
    &&& 0 <= at
    &&& at + needle.len() <= haystack.len()
    &&& haystack.subrange(at, at + needle.len()) == needle
}

/// The first place at or after `from` at which `needle` stands in
/// `haystack`.
pub open spec fn first_occurrence(haystack: Seq<u8>, needle: Seq<u8>, from: int) -> Option<int>
    decreases haystack.len() - from,
{
    if from < 0 || from + needle.len() > haystack.len() {
        None
    } else if occurs_at(haystack, needle, from) {
        Some(from)
    } else if from >= haystack.len() {
        None
    } else {
        first_occurrence(haystack, needle, from + 1)
    }
}

/// Tells whether the bytes of `needle` stand in `haystack` at `at`.
pub fn matches_at(haystack: &[u8], needle: &[u8], at: usize) -> (found: bool)
    requires
        at + needle@.len() <= haystack@.len(),
    ensures
        found == occurs_at(haystack@, needle@, at as int),
{
    let mut i: usize = 0;
    let length = haystack.len();
    while i < needle.len()
        invariant
            i <= needle@.len(),
            at + needle@.len() <= haystack@.len() == length,
            forall|j: int| 0 <= j < i ==> haystack@[at + j] == needle@[j],
        decreases needle@.len() - i,
    {
        if haystack[at + i] != needle[i] {
            assert(haystack@.subrange(at as int, at + needle@.len())[i as int] != needle@[i as int]);
            return false;
        }
        i += 1;
    }
    assert(haystack@.subrange(at as int, at + needle@.len()) =~= needle@);
    true
}

/// The first place at or after `from` at which `needle` stands in
/// `haystack`.
pub fn find_bytes(haystack: &[u8], needle: &[u8], from: usize) -> (found: Option<usize>)
    ensures
        found matches Some(at) ==> first_occurrence(haystack@, needle@, from as int) == Some(
            at as int,
        ) && from <= at && at + needle@.len() <= haystack@.len(),
        found is None ==> first_occurrence(haystack@, needle@, from as int) is None,
{
    if needle.len() > haystack.len() || from > haystack.len() - needle.len() {
        return None;
    }
    let last = haystack.len() - needle.len();
    let mut at = from;
    loop
        invariant
            from <= at <= last,
            last == haystack@.len() - needle@.len(),
            first_occurrence(haystack@, needle@, from as int) == first_occurrence(
                haystack@,
                needle@,
                at as int,
            ),
        decreases last - at,
    {
        if matches_at(haystack, needle, at) {
            return Some(at);
        }
        if at == last {
            assert(first_occurrence(haystack@, needle@, at + 1) is None);
            return None;
        }
        at += 1;
    }
}

/// Whether `Regex::new` of the regex crate, in its variant for bytes,
/// compiles `pattern`.
pub uninterp spec fn regex_valid(pattern: Seq<char>) -> bool;

/// The bounds of the match that `Regex::find` of the regex crate, in its
/// variant for bytes, gives for the compiled `pattern` in `haystack`.
pub uninterp spec fn regex_first_match(pattern: Seq<char>, haystack: Seq<u8>) -> Option<(int, int)>;

/// The error type of the regex crate.
#[verifier::external_type_specification]
#[verifier::external_body]
pub struct ExRegexError(regex::Error);

/// Compiles `pattern` with `regex::bytes::Regex::new` and searches
/// `haystack` with `regex::bytes::Regex::find`. The contract claims that the
/// call fails exactly where the pattern does not compile, that the bounds
/// returned are those of the first match, and, as the crate documents of
/// every match, that its start is not after its end and that both lie in the
/// haystack.
#[verifier::external_body]
fn regex_find(pattern: &str, haystack: &[u8]) -> (found: Result<
    Option<(usize, usize)>,
    regex::Error,
>)
    ensures
        found is Ok <==> regex_valid(pattern@),
        found matches Ok(Some((start, end))) ==> regex_first_match(pattern@, haystack@) == Some(
            (start as int, end as int),
        ) && start <= end <= haystack@.len(),
        found matches Ok(None) ==> regex_first_match(pattern@, haystack@) is None,
{
    let regex = regex::bytes::Regex::new(pattern)?;
    Ok(regex.find(haystack).map(|m| (m.start(), m.end())))
}

/// The range of the first match of a pattern of the given type in `line`,
/// where there is one; a regular expression that does not compile matches
/// nothing.
pub open spec fn spec_find(pattern_type: PatternType, pattern: Seq<char>, line: Seq<u8>) -> Option<
    (int, int),
> {
    match pattern_type {
        PatternType::Raw => match first_occurrence(line, encode_utf8(pattern), 0) {
            Some(at) => Some((at, at + encode_utf8(pattern).len())),
            None => None,
        },
        PatternType::Regex => if regex_valid(pattern) {
            regex_first_match(pattern, line)
        } else {
            None
        },
    }
}

/// The range of the first match of the pattern in `line`.
pub fn find_pattern(pattern_type: PatternType, pattern: &str, line: &[u8]) -> (found: Result<
    Option<Range<usize>>,
    PatternError,
>)
    ensures
        found is Err <==> pattern_type == PatternType::Regex && !regex_valid(pattern@),
        found matches Ok(Some(range)) ==> spec_find(pattern_type, pattern@, line@) == Some(
            (range.start as int, range.end as int),
        ) && range.start <= range.end <= line@.len(),
        found matches Ok(None) ==> spec_find(pattern_type, pattern@, line@) is None,
{
    match pattern_type {
        PatternType::Raw => {
            let needle = pattern.as_bytes();
            let length = line.len();
            match find_bytes(line, needle, 0) {
                Some(start) => Ok(Some(start..start + needle.len())),
                None => Ok(None),
            }
        },
        PatternType::Regex => {
            match regex_find(pattern, line) {
                Ok(Some((start, end))) => Ok(Some(start..end)),
                Ok(None) => Ok(None),
                Err(_) => Err(PatternError::InvalidRegex),
            }
        },
    }
}

/// One pattern with the switches that say what it does.
#[derive(Debug)]
pub struct FinderSlot {
    pub slot_index: usize,
    pub highlight_flag: HighlightFlag,
    pub highlight_option: HighlightOption,
    pub advanced_action: AdvancedAction,
    pub pattern_type: PatternType,
    pub pattern: Option<String>,
}

impl FinderSlot {
    /// True when the slot carries the number and the colours of the slot
    /// kept at `index`.
    pub open spec fn placed_at(&self, index: int) -> bool {
        &&& self.slot_index == slot_of_index(index)
        &&& self.highlight_option == HighlightOption::of_slot(self.slot_index as int)
    }

    /// True when the slot has the switches that a new slot has, and no
    /// pattern.
    pub open spec fn is_reset(&self) -> bool {
        &&& self.highlight_flag == HighlightFlag::On
        &&& self.advanced_action == AdvancedAction::Nothing
        &&& self.pattern_type == PatternType::Raw
        &&& self.pattern is None
    }

    pub fn from_slot_array_index(index: usize) -> (slot: Self)
        requires
            index <= 9,
        ensures
            slot.placed_at(index as int),
            slot.is_reset(),
    {
        let slot_index = array_index_to_slot_index(index);
        Self {
            slot_index,
            highlight_flag: HighlightFlag::On,
            highlight_option: HighlightOption::from_slot_index(slot_index),
            advanced_action: AdvancedAction::Nothing,
            pattern_type: PatternType::Raw,
            pattern: None,
        }
    }

    pub fn reset(&mut self)
        ensures
            final(self).is_reset(),
            final(self).slot_index == old(self).slot_index,
            final(self).highlight_option == old(self).highlight_option,
    {
        self.highlight_flag = HighlightFlag::On;
        self.advanced_action = AdvancedAction::Nothing;
        self.pattern_type = PatternType::Raw;
        self.pattern = None;
    }

    /// The range of the first match of the slot's pattern in `line`; none
    /// where the slot has no pattern.
    pub open spec fn spec_match(&self, line: Seq<u8>) -> Option<(int, int)> {
        match self.pattern {
            Some(pattern) => spec_find(self.pattern_type, pattern@, line),
            None => None,
        }
    }

    /// True when the slot has a pattern that is not empty.
    pub open spec fn has_pattern(&self) -> bool {
        self.pattern matches Some(pattern) && pattern@.len() > 0
    }

    /// The range of the first match of the slot's pattern in `line`.
    pub fn find_range_of_match(&self, line: &[u8]) -> (found: Result<
        Option<Range<usize>>,
        PatternError,
    >)
        requires
            self.pattern is Some,
        ensures
            found is Err <==> self.pattern_type == PatternType::Regex && !regex_valid(
                self.pattern->0@,
            ),
            found matches Ok(Some(range)) ==> self.spec_match(line@) == Some(
                (range.start as int, range.end as int),
            ) && range.start <= range.end <= line@.len(),
            found matches Ok(None) ==> self.spec_match(line@) is None,
    {
        match &self.pattern {
            Some(pattern) => find_pattern(self.pattern_type, pattern.as_str(), line),
            None => Ok(None),
        }
    }

    /// Tells whether the slot's pattern matches `line`; a pattern that
    /// cannot be matched matches nothing.
    pub fn is_match(&self, line: &[u8]) -> (found: bool)
        ensures
            found == self.spec_match(line@) is Some,
    {
        if self.pattern.is_none() {
            return false;
        }
        match self.find_range_of_match(line) {
            Ok(Some(_)) => true,
            _ => false,
        }
    }

    /// Tells whether the slot has a pattern that is not empty.
    pub fn pattern_is_set(&self) -> (set: bool)
        ensures
            set == self.has_pattern(),
    {
        match &self.pattern {
            Some(pattern) => !pattern.as_str().is_empty(),
            None => false,
        }
    }
}

impl FinderSlot {
    /// The ranges that the slot colours in `line` from `from` on: the
    /// matches of its pattern, found one after the other, each search
    /// starting where the match before ended. A match without bytes
    /// colours nothing, and the search goes on one byte after it.
    pub open spec fn styled_matches(&self, line: Seq<u8>, from: int) -> Seq<StyledRange>
        decreases line.len() - from,
    {
        if from < 0 || from > line.len() {
            Seq::empty()
        } else {
            match self.spec_match(line.subrange(from, line.len() as int)) {
                None => Seq::empty(),
                Some((start, end)) => if start < 0 || start > end || from + end > line.len() {
                    Seq::empty()
                } else if start == end {
                    if from + end >= line.len() {
                        Seq::empty()
                    } else {
                        self.styled_matches(line, from + end + 1)
                    }
                } else {
                    seq![
                        StyledRange {
                            start: (from + start) as usize,
                            end: (from + end) as usize,
                            scheme: RenderScheme::Highlight(self.highlight_option),
                        },
                    ] + self.styled_matches(line, from + end)
                },
            }
        }
    }

    /// The ranges that the slot wants coloured in `line`: its matches, if
    /// its highlight flag is on and it has a pattern.
    pub open spec fn candidates(&self, line: Seq<u8>) -> Seq<StyledRange> {
        if self.highlight_flag == HighlightFlag::On && self.pattern is Some {
            self.styled_matches(line, 0)
        } else {
            Seq::empty()
        }
    }
}

/// The ranges that are coloured when `candidates` are offered one after the
/// other to a line that has the ranges `schemes`: each candidate is taken
/// unless it overlaps a range that the line has by then.
pub open spec fn accept_all(schemes: Seq<StyledRange>, candidates: Seq<StyledRange>) -> Seq<
    StyledRange,
>
    decreases candidates.len(),
{
    if candidates.len() == 0 {
        schemes
    } else {
        let before = accept_all(schemes, candidates.drop_last());
        let last = candidates.last();
        if clear_of(before, last.start as int, last.end as int) {
            before.push(last)
        } else {
            before
        }
    }
}

/// True when candidate `j` of `candidates` is taken.
pub open spec fn is_taken(candidates: Seq<StyledRange>, j: int) -> bool {
    clear_of(
        accept_all(Seq::empty(), candidates.take(j)),
        candidates[j].start as int,
        candidates[j].end as int,
    )
}

/// What was taken of the first candidates stays taken when more are offered.
pub proof fn lemma_accept_all_grows(candidates: Seq<StyledRange>, m: int, n: int)
    requires
        0 <= m <= n <= candidates.len(),
    ensures
        accept_all(Seq::empty(), candidates.take(m)).len() <= accept_all(
            Seq::empty(),
            candidates.take(n),
        ).len(),
        forall|k: int|
            0 <= k < accept_all(Seq::empty(), candidates.take(m)).len() ==> accept_all(
                Seq::empty(),
                candidates.take(n),
            )[k] == #[trigger] accept_all(Seq::empty(), candidates.take(m))[k],
    decreases n - m,
{
    if m < n {
        lemma_accept_all_grows(candidates, m, n - 1);
        assert(candidates.take(n).drop_last() =~= candidates.take(n - 1));
    }
}

/// Of two candidates that overlap the earlier wins: where it is taken, the
/// later is not. The candidates stand in the order of their slots, the
/// active slots before the others and each group in the order in which the
/// slots are kept.
pub proof fn lemma_earlier_candidate_wins(candidates: Seq<StyledRange>, i: int, j: int)
    requires
        0 <= i < j < candidates.len(),
        crate::render::spec_ranges_have_overlap(
            candidates[i].start as int,
            candidates[i].end as int,
            candidates[j].start as int,
            candidates[j].end as int,
        ),
        is_taken(candidates, i),
    ensures
        !is_taken(candidates, j),
{
    let first = accept_all(Seq::empty(), candidates.take(i + 1));
    assert(candidates.take(i + 1).drop_last() =~= candidates.take(i));
    assert(candidates.take(i + 1).last() == candidates[i]);
    assert(first.last() == candidates[i]);
    lemma_accept_all_grows(candidates, i + 1, j);
    let later = accept_all(Seq::empty(), candidates.take(j));
    assert(later[first.len() - 1] == first[first.len() - 1]);
}

/// The ten slots and the set of the numbers of those that are active.
#[derive(Debug)]
pub struct Finder {
    pub slots: Vec<FinderSlot>,
    pub active_slots: BTreeSet<usize>,
    pub menu_active: bool,
}

/// What the finder is asked to do.
#[derive(Debug, Clone, Copy, PartialEq, Eq, Structural)]
pub enum FinderAction {
    SwitchActiveSlot(usize),
    AddActiveSlotStart,
    AddActiveSlot(usize),
    RemoveActiveSlotStart,
    RemoveActiveSlot(usize),
    AddOrRemoveActiveSlotCancel,
    ToggleHighlightFlag,
    ToggleFoldAction,
    ToggleExclusiveAction,
    TogglePatternType,
    ResetSlot,
    MenuOn,
    MenuOff,
}

impl Finder {
    /// The invariant of the finder: ten slots, each with its number and
    /// colours, and a set of active slot numbers that is not empty.
    pub open spec fn wf(&self) -> bool {
        &&& self.slots@.len() == FINDER_SLOT_COUNT
        &&& forall|i: int| 0 <= i < self.slots@.len() ==> (#[trigger] self.slots@[i]).placed_at(i)
        &&& self.active_slots@.finite()
        &&& self.active_slots@.len() >= 1
        &&& forall|slot_index: usize| #[trigger]
            self.active_slots@.contains(slot_index) ==> slot_index <= 9
    }

    /// True when the slot kept at `index` is active.
    pub open spec fn is_active(&self, index: int) -> bool {
        self.active_slots@.contains(slot_of_index(index) as usize)
    }

    /// A finder with ten slots without patterns, slot 1 being active.
    pub fn new() -> (finder: Self)
        ensures
            finder.wf(),
            finder.active_slots@ == set![1usize],
            !finder.menu_active,
            forall|i: int| 0 <= i < 10 ==> (#[trigger] finder.slots@[i]).is_reset(),
    {
        let mut slots: Vec<FinderSlot> = Vec::new();
        let mut index: usize = 0;
        while index < FINDER_SLOT_COUNT
            invariant
                index <= FINDER_SLOT_COUNT,
                slots@.len() == index,
                forall|i: int|
                    0 <= i < index ==> (#[trigger] slots@[i]).placed_at(i) && slots@[i].is_reset(),
            decreases FINDER_SLOT_COUNT - index,
        {
            slots.push(FinderSlot::from_slot_array_index(index));
            index += 1;
        }
        let mut active_slots: BTreeSet<usize> = BTreeSet::new();
        active_slots.insert(1);
        assert(active_slots@ =~= set![1usize]);
        Self { slots, active_slots, menu_active: false }
    }

    pub fn is_menu_active(&self) -> (active: bool)
        ensures
            active == self.menu_active,
    {
        self.menu_active
    }

    /// The numbers of the active slots.
    pub fn active_slots(&self) -> (active: &BTreeSet<usize>)
        ensures
            active@ == self.active_slots@,
    {
        &self.active_slots
    }

    /// Tells whether the slot with the number `slot_index` is active.
    pub fn is_active_slot(&self, slot_index: usize) -> (active: bool)
        ensures
            active == self.active_slots@.contains(slot_index),
    {
        self.active_slots.contains(&slot_index)
    }

    /// Makes the slot with the number `slot_index` the only active slot.
    pub fn set_active_slot(&mut self, slot_index: usize)
        requires
            old(self).wf(),
            slot_index <= 9,
        ensures
            final(self).wf(),
            final(self).active_slots@ == set![slot_index],
            final(self).slots == old(self).slots,
            final(self).menu_active == old(self).menu_active,
    {
        let mut active_slots: BTreeSet<usize> = BTreeSet::new();
        active_slots.insert(slot_index);
        assert(active_slots@ =~= set![slot_index]);
        self.active_slots = active_slots;
    }

    /// Makes the slot with the number `slot_index` active beside those that
    /// are.
    pub fn add_active_slot(&mut self, slot_index: usize)
        requires
            old(self).wf(),
            slot_index <= 9,
        ensures
            final(self).wf(),
            final(self).active_slots@ == old(self).active_slots@.insert(slot_index),
            final(self).slots == old(self).slots,
            final(self).menu_active == old(self).menu_active,
    {
        self.active_slots.insert(slot_index);
    }

    /// Takes the slot with the number `slot_index` out of the active slots,
    /// unless it is the only one: the set is never left empty.
    pub fn remove_active_slot(&mut self, slot_index: usize)
        requires
            old(self).wf(),
        ensures
            final(self).wf(),
            final(self).active_slots@ == if old(self).active_slots@ == set![slot_index] {
                old(self).active_slots@
            } else {
                old(self).active_slots@.remove(slot_index)
            },
            final(self).slots == old(self).slots,
            final(self).menu_active == old(self).menu_active,
    {
        let ghost before = self.active_slots@;
        if self.active_slots.len() > 1 {
            self.active_slots.remove(&slot_index);
            proof {
                if before =~= set![slot_index] {
                    assert(before.len() == 1);
                }
                assert(self.active_slots@ == before.remove(slot_index));
            }
        } else if !self.active_slots.contains(&slot_index) {
            assert(before.remove(slot_index) =~= before);
            assert(!(before =~= set![slot_index]));
        } else {
            proof {
                assert(before.len() == 1);
                assert(before.remove(slot_index).len() == 0);
                assert(before =~= set![slot_index]) by {
                    assert forall|x: usize| before.contains(x) implies x == slot_index by {
                        if x != slot_index {
                            assert(before.remove(slot_index).contains(x));
                        }
                    }
                }
            }
        }
    }

    /// True when `after` is this finder but for the slots, and each slot
    /// that is not active is as it was.
    pub open spec fn only_active_changed(&self, after: &Finder) -> bool {
        &&& after.active_slots@ == self.active_slots@
        &&& after.menu_active == self.menu_active
        &&& after.slots@.len() == self.slots@.len()
        &&& forall|i: int|
            0 <= i < self.slots@.len() && !self.is_active(i) ==> #[trigger] after.slots@[i]
                == self.slots@[i]
    }

    /// True when `after` is this finder with the highlight flag of each
    /// active slot turned over.
    pub open spec fn highlight_toggled(&self, after: &Finder) -> bool {
        &&& self.only_active_changed(after)
        &&& forall|i: int|
            0 <= i < self.slots@.len() && self.is_active(i) ==> #[trigger] after.slots@[i] == (
            FinderSlot {
                highlight_flag: match self.slots@[i].highlight_flag {
                    HighlightFlag::On => HighlightFlag::Off,
                    HighlightFlag::Off => HighlightFlag::On,
                },
                ..self.slots@[i]
            })
    }

    /// True when `after` is this finder with each active slot set to fold,
    /// or to do nothing where it folded.
    pub open spec fn fold_toggled(&self, after: &Finder) -> bool {
        &&& self.only_active_changed(after)
        &&& forall|i: int|
            0 <= i < self.slots@.len() && self.is_active(i) ==> #[trigger] after.slots@[i] == (
            FinderSlot {
                advanced_action: match self.slots@[i].advanced_action {
                    AdvancedAction::Fold => AdvancedAction::Nothing,
                    _ => AdvancedAction::Fold,
                },
                ..self.slots@[i]
            })
    }

    /// True when `after` is this finder with each active slot set to be
    /// exclusive, or to do nothing where it was.
    pub open spec fn exclusive_toggled(&self, after: &Finder) -> bool {
        &&& self.only_active_changed(after)
        &&& forall|i: int|
            0 <= i < self.slots@.len() && self.is_active(i) ==> #[trigger] after.slots@[i] == (
            FinderSlot {
                advanced_action: match self.slots@[i].advanced_action {
                    AdvancedAction::Exclusive => AdvancedAction::Nothing,
                    _ => AdvancedAction::Exclusive,
                },
                ..self.slots@[i]
            })
    }

    /// True when `after` is this finder with the pattern type of each active
    /// slot turned over.
    pub open spec fn pattern_type_toggled(&self, after: &Finder) -> bool {
        &&& self.only_active_changed(after)
        &&& forall|i: int|
            0 <= i < self.slots@.len() && self.is_active(i) ==> #[trigger] after.slots@[i] == (
            FinderSlot {
                pattern_type: match self.slots@[i].pattern_type {
                    PatternType::Raw => PatternType::Regex,
                    PatternType::Regex => PatternType::Raw,
                },
                ..self.slots@[i]
            })
    }

    /// True when `after` is this finder with each active slot reset.
    pub open spec fn active_reset(&self, after: &Finder) -> bool {
        &&& self.only_active_changed(after)
        &&& forall|i: int|
            0 <= i < self.slots@.len() && self.is_active(i)
                ==> (#[trigger] after.slots@[i]).is_reset()
                && after.slots@[i].slot_index == self.slots@[i].slot_index
                && after.slots@[i].highlight_option == self.slots@[i].highlight_option
    }

    /// True when `after` is this finder with `pattern` as the pattern of
    /// each active slot.
    pub open spec fn pattern_set(&self, after: &Finder, pattern: Seq<char>) -> bool {
        &&& self.only_active_changed(after)
        &&& forall|i: int|
            0 <= i < self.slots@.len() && self.is_active(i) ==> {
                &&& (#[trigger] after.slots@[i]).pattern matches Some(set)
                &&& set@ == pattern
                &&& after.slots@[i].slot_index == self.slots@[i].slot_index
                &&& after.slots@[i].highlight_option == self.slots@[i].highlight_option
                &&& after.slots@[i].highlight_flag == self.slots@[i].highlight_flag
                &&& after.slots@[i].advanced_action == self.slots@[i].advanced_action
                &&& after.slots@[i].pattern_type == self.slots@[i].pattern_type
            }
    }

    /// Gives the one active slot `pattern` as its pattern.
    pub fn update_search_pattern(&mut self, pattern: &str)
        requires
            old(self).wf(),
            old(self).active_slots@.len() == 1,
        ensures
            final(self).wf(),
            old(self).pattern_set(final(self), pattern@),
    {
        let mut index: usize = 0;
        while index < FINDER_SLOT_COUNT
            invariant
                index <= FINDER_SLOT_COUNT,
                self.wf(),
                old(self).wf(),
                self.active_slots@ == old(self).active_slots@,
                self.menu_active == old(self).menu_active,
                forall|i: int| index <= i < 10 ==> self.slots@[i] == old(self).slots@[i],
                forall|i: int|
                    0 <= i < index && !old(self).is_active(i)
                        ==> self.slots@[i] == old(self).slots@[i],
                forall|i: int|
                    0 <= i < index && old(self).is_active(i) ==> {
                        &&& (#[trigger] self.slots@[i]).pattern matches Some(set)
                        &&& set@ == pattern@
                        &&& self.slots@[i].slot_index == old(self).slots@[i].slot_index
                        &&& self.slots@[i].highlight_option == old(self).slots@[i].highlight_option
                        &&& self.slots@[i].highlight_flag == old(self).slots@[i].highlight_flag
                        &&& self.slots@[i].advanced_action == old(self).slots@[i].advanced_action
                        &&& self.slots@[i].pattern_type == old(self).slots@[i].pattern_type
                    },
            decreases FINDER_SLOT_COUNT - index,
        {
            if self.active_slots.contains(&self.slots[index].slot_index) {
                self.slots[index].pattern = Some(pattern.to_owned());
            }
            index += 1;
        }
    }

    /// True when the pattern of an active slot matches `line`.
    pub open spec fn satisfies(&self, line: Seq<u8>) -> bool {
        exists|i: int|
            0 <= i < self.slots@.len() && self.is_active(i)
                && (#[trigger] self.slots@[i]).spec_match(
                line,
            ) is Some
    }

    /// Tells whether the pattern of an active slot matches `line`.
    pub fn can_satisfy_active_search_patterns(&self, line: &[u8]) -> (found: bool)
        requires
            self.wf(),
        ensures
            found == self.satisfies(line@),
    {
        let mut index: usize = 0;
        while index < FINDER_SLOT_COUNT
            invariant
                index <= FINDER_SLOT_COUNT,
                self.wf(),
                forall|i: int|
                    0 <= i < index ==> !(self.is_active(i)
                        && (#[trigger] self.slots@[i]).spec_match(
                        line@,
                    ) is Some),
            decreases FINDER_SLOT_COUNT - index,
        {
            let slot = &self.slots[index];
            if self.active_slots.contains(&slot.slot_index) && slot.is_match(line) {
                return true;
            }
            index += 1;
        }
        false
    }

    pub fn toggle_highlight_flag(&mut self)
        requires
            old(self).wf(),
        ensures
            final(self).wf(),
            old(self).highlight_toggled(final(self)),
    {
        let mut index: usize = 0;
        while index < FINDER_SLOT_COUNT
            invariant
                index <= FINDER_SLOT_COUNT,
                self.wf(),
                old(self).wf(),
                self.active_slots@ == old(self).active_slots@,
                self.menu_active == old(self).menu_active,
                forall|i: int| index <= i < 10 ==> self.slots@[i] == old(self).slots@[i],
                forall|i: int|
                    0 <= i < index && !old(self).is_active(i)
                        ==> self.slots@[i] == old(self).slots@[i],
                forall|i: int|
                    0 <= i < index && old(self).is_active(i) ==> #[trigger] self.slots@[i] == (
                    FinderSlot {
                        highlight_flag: match old(self).slots@[i].highlight_flag {
                            HighlightFlag::On => HighlightFlag::Off,
                            HighlightFlag::Off => HighlightFlag::On,
                        },
                        ..old(self).slots@[i]
                    }),
            decreases FINDER_SLOT_COUNT - index,
        {
            if self.active_slots.contains(&self.slots[index].slot_index) {
                self.slots[index].highlight_flag.toggle();
            }
            index += 1;
        }
    }

    pub fn toggle_fold_action(&mut self)
        requires
            old(self).wf(),
        ensures
            final(self).wf(),
            old(self).fold_toggled(final(self)),
    {
        let mut index: usize = 0;
        while index < FINDER_SLOT_COUNT
            invariant
                index <= FINDER_SLOT_COUNT,
                self.wf(),
                old(self).wf(),
                self.active_slots@ == old(self).active_slots@,
                self.menu_active == old(self).menu_active,
                forall|i: int| index <= i < 10 ==> self.slots@[i] == old(self).slots@[i],
                forall|i: int|
                    0 <= i < index && !old(self).is_active(i)
                        ==> self.slots@[i] == old(self).slots@[i],
                forall|i: int|
                    0 <= i < index && old(self).is_active(i) ==> #[trigger] self.slots@[i] == (
                    FinderSlot {
                        advanced_action: match old(self).slots@[i].advanced_action {
                            AdvancedAction::Fold => AdvancedAction::Nothing,
                            _ => AdvancedAction::Fold,
                        },
                        ..old(self).slots@[i]
                    }),
            decreases FINDER_SLOT_COUNT - index,
        {
            if self.active_slots.contains(&self.slots[index].slot_index) {
                self.slots[index].advanced_action.toggle_fold();
            }
            index += 1;
        }
    }

    pub fn toggle_exclusive_action(&mut self)
        requires
            old(self).wf(),
        ensures
            final(self).wf(),
            old(self).exclusive_toggled(final(self)),
    {
        let mut index: usize = 0;
        while index < FINDER_SLOT_COUNT
            invariant
                index <= FINDER_SLOT_COUNT,
                self.wf(),
                old(self).wf(),
                self.active_slots@ == old(self).active_slots@,
                self.menu_active == old(self).menu_active,
                forall|i: int| index <= i < 10 ==> self.slots@[i] == old(self).slots@[i],
                forall|i: int|
                    0 <= i < index && !old(self).is_active(i)
                        ==> self.slots@[i] == old(self).slots@[i],
                forall|i: int|
                    0 <= i < index && old(self).is_active(i) ==> #[trigger] self.slots@[i] == (
                    FinderSlot {
                        advanced_action: match old(self).slots@[i].advanced_action {
                            AdvancedAction::Exclusive => AdvancedAction::Nothing,
                            _ => AdvancedAction::Exclusive,
                        },
                        ..old(self).slots@[i]
                    }),
            decreases FINDER_SLOT_COUNT - index,
        {
            if self.active_slots.contains(&self.slots[index].slot_index) {
                self.slots[index].advanced_action.toggle_exclusive();
            }
            index += 1;
        }
    }

    pub fn toggle_pattern_type(&mut self)
        requires
            old(self).wf(),
        ensures
            final(self).wf(),
            old(self).pattern_type_toggled(final(self)),
    {
        let mut index: usize = 0;
        while index < FINDER_SLOT_COUNT
            invariant
                index <= FINDER_SLOT_COUNT,
                self.wf(),
                old(self).wf(),
                self.active_slots@ == old(self).active_slots@,
                self.menu_active == old(self).menu_active,
                forall|i: int| index <= i < 10 ==> self.slots@[i] == old(self).slots@[i],
                forall|i: int|
                    0 <= i < index && !old(self).is_active(i)
                        ==> self.slots@[i] == old(self).slots@[i],
                forall|i: int|
                    0 <= i < index && old(self).is_active(i) ==> #[trigger] self.slots@[i] == (
                    FinderSlot {
                        pattern_type: match old(self).slots@[i].pattern_type {
                            PatternType::Raw => PatternType::Regex,
                            PatternType::Regex => PatternType::Raw,
                        },
                        ..old(self).slots@[i]
                    }),
            decreases FINDER_SLOT_COUNT - index,
        {
            if self.active_slots.contains(&self.slots[index].slot_index) {
                self.slots[index].pattern_type.toggle();
            }
            index += 1;
        }
    }

    pub fn reset_active_slots(&mut self)
        requires
            old(self).wf(),
        ensures
            final(self).wf(),
            old(self).active_reset(final(self)),
    {
        let mut index: usize = 0;
        while index < FINDER_SLOT_COUNT
            invariant
                index <= FINDER_SLOT_COUNT,
                self.wf(),
                old(self).wf(),
                self.active_slots@ == old(self).active_slots@,
                self.menu_active == old(self).menu_active,
                forall|i: int| index <= i < 10 ==> self.slots@[i] == old(self).slots@[i],
                forall|i: int|
                    0 <= i < index && !old(self).is_active(i)
                        ==> self.slots@[i] == old(self).slots@[i],
                forall|i: int|
                    0 <= i < index && old(self).is_active(i)
                        ==> (#[trigger] self.slots@[i]).is_reset()
                        && self.slots@[i].slot_index == old(self).slots@[i].slot_index
                        && self.slots@[i].highlight_option == old(self).slots@[i].highlight_option,
            decreases FINDER_SLOT_COUNT - index,
        {
            if self.active_slots.contains(&self.slots[index].slot_index) {
                self.slots[index].reset();
            }
            index += 1;
        }
    }

    /// True when `after` is what `action` makes of this finder. The two
    /// actions that only announce that a slot number follows leave the finder
    /// as it is.
    pub open spec fn handled(&self, after: &Finder, action: FinderAction) -> bool {
        &&& match action {
            FinderAction::MenuOn => after.menu_active && after.slots == self.slots
                && after.active_slots == self.active_slots,
            FinderAction::MenuOff => !after.menu_active && after.slots == self.slots
                && after.active_slots == self.active_slots,
            FinderAction::AddActiveSlotStart => *after == *self,
            FinderAction::RemoveActiveSlotStart => *after == *self,
            FinderAction::AddOrRemoveActiveSlotCancel => *after == *self,
            FinderAction::SwitchActiveSlot(slot_index) => after.active_slots@
                == set![slot_index] && after.slots == self.slots
                    && after.menu_active == self.menu_active,
            FinderAction::AddActiveSlot(slot_index) => after.active_slots@
                == self.active_slots@.insert(slot_index) && after.slots == self.slots
                && after.menu_active == self.menu_active,
            FinderAction::RemoveActiveSlot(slot_index) => after.active_slots@ == (if self.active_slots@
                == set![slot_index] {
                self.active_slots@
            } else {
                self.active_slots@.remove(slot_index)
            }) && after.slots == self.slots && after.menu_active == self.menu_active,
            FinderAction::ToggleHighlightFlag => self.highlight_toggled(after),
            FinderAction::ToggleFoldAction => self.fold_toggled(after),
            FinderAction::ToggleExclusiveAction => self.exclusive_toggled(after),
            FinderAction::TogglePatternType => self.pattern_type_toggled(after),
            FinderAction::ResetSlot => self.active_reset(after),
        }
    }

    /// Does what `action` asks for. The two actions that only announce that
    /// a slot number follows leave the finder as it is.
    pub fn handle_event(&mut self, action: FinderAction)
        requires
            old(self).wf(),
            match action {
                FinderAction::SwitchActiveSlot(slot_index) => slot_index <= 9,
                FinderAction::AddActiveSlot(slot_index) => slot_index <= 9,
                _ => true,
            },
        ensures
            final(self).wf(),
            old(self).handled(final(self), action),
    {
        match action {
            FinderAction::MenuOn => self.menu_active = true,
            FinderAction::MenuOff => self.menu_active = false,
            FinderAction::AddActiveSlotStart => {},
            FinderAction::RemoveActiveSlotStart => {},
            FinderAction::SwitchActiveSlot(index) => self.set_active_slot(index),
            FinderAction::AddActiveSlot(index) => self.add_active_slot(index),
            FinderAction::RemoveActiveSlot(index) => self.remove_active_slot(index),
            FinderAction::AddOrRemoveActiveSlotCancel => {},
            FinderAction::ToggleHighlightFlag => self.toggle_highlight_flag(),
            FinderAction::ToggleFoldAction => self.toggle_fold_action(),
            FinderAction::ToggleExclusiveAction => self.toggle_exclusive_action(),
            FinderAction::TogglePatternType => self.toggle_pattern_type(),
            FinderAction::ResetSlot => self.reset_active_slots(),
        }
    }

    /// True when slot `i` has a pattern that is not empty and the action
    /// `action`.
    pub open spec fn filters(&self, i: int, action: AdvancedAction) -> bool {
        &&& 0 <= i < self.slots@.len()
        &&& self.slots@[i].advanced_action == action
        &&& self.slots@[i].has_pattern()
    }

    /// True when `line` is shown: no slot that folds matches it, and where
    /// there are exclusive slots, one of them matches it. Slots without a
    /// pattern, or with an empty one, take no part.
    pub open spec fn passes(&self, line: Seq<u8>) -> bool {
        &&& forall|i: int| #[trigger]
            self.filters(i, AdvancedAction::Fold) ==> self.slots@[i].spec_match(line) is None
        &&& (exists|i: int| self.filters(i, AdvancedAction::Exclusive)) ==> exists|i: int|
            #[trigger] self.filters(i, AdvancedAction::Exclusive) && self.slots@[i].spec_match(
                line,
            ) is Some
    }

    /// Tells whether `line` is shown under the fold and exclusive slots.
    pub fn can_pass_advance_action(&self, line: &[u8]) -> (pass: bool)
        requires
            self.wf(),
        ensures
            pass == self.passes(line@),
    {
        let mut any_exclusive = false;
        let mut exclusive_hit = false;
        let mut index: usize = 0;
        while index < FINDER_SLOT_COUNT
            invariant
                index <= FINDER_SLOT_COUNT,
                self.wf(),
                forall|i: int|
                    0 <= i < index && #[trigger] self.filters(i, AdvancedAction::Fold)
                        ==> self.slots@[i].spec_match(line@) is None,
                any_exclusive == exists|i: int|
                    0 <= i < index && #[trigger] self.filters(i, AdvancedAction::Exclusive),
                exclusive_hit == exists|i: int|
                    0 <= i < index && #[trigger] self.filters(i, AdvancedAction::Exclusive)
                        && self.slots@[i].spec_match(line@) is Some,
            decreases FINDER_SLOT_COUNT - index,
        {
            let slot = &self.slots[index];
            if slot.pattern_is_set() {
                match slot.advanced_action {
                    AdvancedAction::Fold => {
                        if slot.is_match(line) {
                            assert(self.filters(index as int, AdvancedAction::Fold));
                            return false;
                        }
                    },
                    AdvancedAction::Exclusive => {
                        assert(self.filters(index as int, AdvancedAction::Exclusive));
                        any_exclusive = true;
                        if slot.is_match(line) {
                            exclusive_hit = true;
                        }
                    },
                    AdvancedAction::Nothing => {},
                }
            }
            index += 1;
        }
        !any_exclusive || exclusive_hit
    }

    /// The candidates of the first `n` slots that are active, where
    /// `active` holds, or of those that are not, in the order in which the
    /// slots are kept.
    pub open spec fn candidates_of(&self, line: Seq<u8>, active: bool, n: int) -> Seq<StyledRange>
        decreases n,
    {
        if n <= 0 {
            Seq::empty()
        } else if self.is_active(n - 1) == active {
            self.candidates_of(line, active, n - 1) + self.slots@[n - 1].candidates(line)
        } else {
            self.candidates_of(line, active, n - 1)
        }
    }

    /// The ranges that the slots want coloured in `line`, in the order of
    /// their priority: those of the active slots, then those of the others.
    pub open spec fn all_candidates(&self, line: Seq<u8>) -> Seq<StyledRange> {
        self.candidates_of(line, true, 10) + self.candidates_of(line, false, 10)
    }

    /// Offers the matches of the slot at `index` to `line_with_scheme`.
    fn attach_slot(
        &self,
        index: usize,
        line: &[u8],
        line_with_scheme: &mut LineWithRenderScheme,
        Ghost(seen): Ghost<Seq<StyledRange>>,
    )
        requires
            self.wf(),
            index < FINDER_SLOT_COUNT,
            old(line_with_scheme).wf(),
            crate::render::filled(old(line_with_scheme)@),
            old(line_with_scheme)@.content == line@,
            old(line_with_scheme)@.schemes == accept_all(Seq::empty(), seen),
        ensures
            final(line_with_scheme).wf(),
            crate::render::filled(final(line_with_scheme)@),
            final(line_with_scheme)@.content == line@,
            final(line_with_scheme)@.schemes == accept_all(
                Seq::empty(),
                seen + self.slots@[index as int].candidates(line@),
            ),
    {
        let slot = &self.slots[index];
        if slot.highlight_flag == HighlightFlag::Off || slot.pattern.is_none() {
            assert(seen + slot.candidates(line@) =~= seen);
            return ;
        }
        let length = line.len();
        let mut from_pos: usize = 0;
        let ghost mut offered = seen;
        assert(seen + slot.styled_matches(line@, 0) =~= offered + slot.styled_matches(line@, 0));
        loop
            invariant_except_break
                offered + slot.styled_matches(line@, from_pos as int) == seen + slot.candidates(
                    line@,
                ),
            invariant
                self.wf(),
                *slot == self.slots@[index as int],
                slot.pattern is Some,
                from_pos <= length == line@.len(),
                line_with_scheme.wf(),
                crate::render::filled(line_with_scheme@),
                line_with_scheme@.content == line@,
                line_with_scheme@.schemes == accept_all(Seq::empty(), offered),
            ensures
                offered == seen + slot.candidates(line@),
            decreases length - from_pos,
        {
            let rest = slice_subrange(line, from_pos, length);
            let found = slot.find_range_of_match(rest);
            let match_range = match found {
                Ok(Some(match_range)) => match_range,
                _ => {
                    proof {
                        assert(offered + Seq::<StyledRange>::empty() =~= offered);
                    }
                    break ;
                },
            };
            if match_range.start >= match_range.end {
                if match_range.end + from_pos >= length {
                    proof {
                        assert(offered + Seq::<StyledRange>::empty() =~= offered);
                    }
                    break ;
                }
                from_pos = match_range.end + from_pos + 1;
                continue ;
            }
            let start = match_range.start + from_pos;
            let end = match_range.end + from_pos;
            let ghost range = StyledRange {
                start,
                end,
                scheme: RenderScheme::Highlight(slot.highlight_option),
            };
            proof {
                let next = slot.styled_matches(line@, end as int);
                assert(offered + (seq![range] + next) =~= offered.push(range) + next);
                assert(offered.push(range).drop_last() =~= offered);
            }
            line_with_scheme.add_scheme_if_not_overlap(
                start..end,
                RenderScheme::Highlight(slot.highlight_option),
            );
            proof {
                offered = offered.push(range);
            }
            from_pos = end;
        }
    }

    /// `line` with the matches of the slots coloured: the matches are
    /// offered in the order of priority, and one that overlaps a range
    /// coloured before is passed over.
    pub fn attach_render_scheme(&self, line: &[u8]) -> (line_with_scheme: LineWithRenderScheme)
        requires
            self.wf(),
        ensures
            line_with_scheme@.content == line@,
            line_with_scheme@.schemes == accept_all(Seq::empty(), self.all_candidates(line@)),
            line_with_scheme.wf(),
            crate::render::filled(line_with_scheme@),
    {
        let mut line_with_scheme = LineWithRenderScheme::new(line);
        assert(line_with_scheme@.schemes =~= accept_all(Seq::empty(), Seq::empty()));
        // active slots have higher priority than inactive ones
        let mut index: usize = 0;
        while index < FINDER_SLOT_COUNT
            invariant
                index <= FINDER_SLOT_COUNT,
                self.wf(),
                line_with_scheme.wf(),
                crate::render::filled(line_with_scheme@),
                line_with_scheme@.content == line@,
                line_with_scheme@.schemes == accept_all(
                    Seq::empty(),
                    self.candidates_of(line@, true, index as int),
                ),
            decreases FINDER_SLOT_COUNT - index,
        {
            if self.active_slots.contains(&self.slots[index].slot_index) {
                self.attach_slot(
                    index,
                    line,
                    &mut line_with_scheme,
                    Ghost(self.candidates_of(line@, true, index as int)),
                );
            }
            index += 1;
        }
        let ghost active = self.candidates_of(line@, true, 10);
        assert(active + self.candidates_of(line@, false, 0) =~= active);
        index = 0;
        while index < FINDER_SLOT_COUNT
            invariant
                index <= FINDER_SLOT_COUNT,
                self.wf(),
                active == self.candidates_of(line@, true, 10),
                line_with_scheme.wf(),
                crate::render::filled(line_with_scheme@),
                line_with_scheme@.content == line@,
                line_with_scheme@.schemes == accept_all(
                    Seq::empty(),
                    active + self.candidates_of(line@, false, index as int),
                ),
            decreases FINDER_SLOT_COUNT - index,
        {
            if !self.active_slots.contains(&self.slots[index].slot_index) {
                let ghost before = self.candidates_of(line@, false, index as int);
                self.attach_slot(index, line, &mut line_with_scheme, Ghost(active + before));
                assert(active + before + self.slots@[index as int].candidates(line@) =~= active
                    + (before + self.slots@[index as int].candidates(line@)));
            }
            index += 1;
        }
        line_with_scheme
    }
}

/// The number of lines of the finder menu.
pub const FINDER_MENU_HEIGHT: usize = 11;

/// The least width of a window that shows the finder menu.
pub const FINDER_MENU_MIN_WIDTH: usize = 50;

/// The name in the title of the finder menu.
pub const FINDER_MENU_STR: &'static str = " Finder Menu ";

/// The switches of a slot as the finder menu names them.
pub const FINDER_MENU_SWITCHES: &'static str = " | On Off | Fold Exclusive | Raw Regex | ";

/// The byte of the sign that marks an active slot.
pub const ACTIVE_MARK: u8 = 42;

/// The byte of the bar that closes the strip of slots on the status bar.
pub const STRIP_END: u8 = 124;

/// The least number of blanks on the status bar that leaves room for the
/// strip of slots.
pub const STRIP_MIN_SPACES: usize = 40;

impl Finder {
    /// The byte that marks the slot at `index`: an asterisk where it is
    /// active, else a blank.
    pub open spec fn mark(&self, index: int) -> u8 {
        if self.is_active(index) {
            ACTIVE_MARK
        } else {
            BLANK
        }
    }

    /// The digit of the number of the slot at `index`.
    pub open spec fn digit(&self, index: int) -> u8 {
        (48 + self.slots@[index].slot_index) as u8
    }

    /// How the number of the slot at `index` is drawn on the status bar: in
    /// the colours of the slot where it has a pattern, else dim.
    pub open spec fn strip_scheme(&self, index: int) -> RenderScheme {
        if self.slots@[index].pattern is Some {
            RenderScheme::Highlight(self.slots@[index].highlight_option)
        } else {
            RenderScheme::Dim
        }
    }

    /// The bytes of a status bar with the strip of slots written over
    /// `content`: thirty-two bytes that end five bytes before the end of the
    /// bar, three for each slot, a blank that is left as it is, the mark and
    /// the digit, and a blank and a bar in the last two.
    pub open spec fn strip(&self, content: Seq<u8>) -> Seq<u8> {
        let end = content.len() - 5;
        let start = end - 32;
        Seq::new(
            content.len(),
            |i: int|
                if start <= i < start + 30 && (i - start) % 3 == 1 {
                    self.mark((i - start) / 3)
                } else if start <= i < start + 30 && (i - start) % 3 == 2 {
                    self.digit((i - start) / 3)
                } else if i == end - 2 {
                    BLANK
                } else if i == end - 1 {
                    STRIP_END
                } else {
                    content[i]
                },
        )
    }

    /// The ranges of the digits of the first `count` slots on a status bar
    /// of `length` bytes, with their schemes.
    pub open spec fn strip_ranges(&self, length: int, count: int) -> Seq<StyledRange>
        decreases count,
    {
        if count <= 0 {
            Seq::empty()
        } else {
            self.strip_ranges(length, count - 1).push(
                StyledRange {
                    start: (length - 37 + 3 * (count - 1) + 2) as usize,
                    end: (length - 37 + 3 * (count - 1) + 3) as usize,
                    scheme: self.strip_scheme(count - 1),
                },
            )
        }
    }

    /// True when `after` is the canvas `before` with the strip of slots
    /// written on its status bar, where the bar has at least forty blanks:
    /// see `strip`. The digits are offered for colouring, each in the scheme
    /// of its slot.
    pub open spec fn strip_drawn(&self, before: &Canvas, after: &Canvas, space_count: int) -> bool {
        &&& after.body_area == before.body_area
        &&& after.popup_menu == before.popup_menu
        &&& after.cursor_pos_x == before.cursor_pos_x
        &&& if space_count < STRIP_MIN_SPACES {
                after.status_bar == before.status_bar
            } else {
                &&& after.status_bar@.content == self.strip(before.status_bar@.content)
                &&& after.status_bar@.schemes == accept_all(
                    before.status_bar@.schemes,
                    self.strip_ranges(before.status_bar@.content.len() as int, 10),
                )
            }
    }

    /// Writes the strip of slots on the status bar of the canvas, where the
    /// bar has at least forty blanks: see `strip`. The digits are offered
    /// for colouring, each in the scheme of its slot.
    pub fn render_status_bar(&self, canvas: &mut Canvas, space_count: usize)
        requires
            self.wf(),
            old(canvas).wf(),
            space_count >= STRIP_MIN_SPACES ==> old(canvas).status_bar@.content.len() >= 37,
        ensures
            final(canvas).wf(),
            self.strip_drawn(old(canvas), final(canvas), space_count as int),
    {
        if space_count < STRIP_MIN_SPACES {
            return ;
        }
        let mut raw_content = vstd::slice::slice_to_vec(canvas.status_bar.raw_content());
        let length = raw_content.len();
        let slots_section_end = length - 5;
        let slots_section_start = slots_section_end - 32;
        let mut current_slot_start = slots_section_start;
        let ghost content = canvas.status_bar@.content;
        let ghost schemes = canvas.status_bar@.schemes;
        let mut index: usize = 0;
        while index < FINDER_SLOT_COUNT
            invariant
                index <= FINDER_SLOT_COUNT,
                self.wf(),
                canvas.wf(),
                canvas.body_area == old(canvas).body_area,
                canvas.popup_menu == old(canvas).popup_menu,
                canvas.cursor_pos_x == old(canvas).cursor_pos_x,
                content == old(canvas).status_bar@.content,
                schemes == old(canvas).status_bar@.schemes,
                canvas.status_bar@.content == content,
                length == content.len() >= 37,
                slots_section_start == length - 37,
                current_slot_start == slots_section_start + 3 * index,
                raw_content@.len() == length,
                forall|i: int|
                    0 <= i < length ==> raw_content@[i] == if slots_section_start <= i
                        < slots_section_start + 3 * index && (i - slots_section_start) % 3 == 1 {
                        self.mark((i - slots_section_start) / 3)
                    } else if slots_section_start <= i < slots_section_start + 3 * index && (i
                        - slots_section_start) % 3 == 2 {
                        self.digit((i - slots_section_start) / 3)
                    } else {
                        content[i]
                    },
                canvas.status_bar@.schemes == accept_all(
                    schemes,
                    self.strip_ranges(length as int, index as int),
                ),
            decreases FINDER_SLOT_COUNT - index,
        {
            let slot = &self.slots[index];
            let maybe_cursor = if self.active_slots.contains(&slot.slot_index) {
                ACTIVE_MARK
            } else {
                BLANK
            };
            raw_content[current_slot_start + 1] = maybe_cursor;
            raw_content[current_slot_start + 2] = (48 + slot.slot_index) as u8;
            let scheme = if slot.pattern.is_some() {
                RenderScheme::Highlight(slot.highlight_option)
            } else {
                RenderScheme::Dim
            };
            proof {
                let next = self.strip_ranges(length as int, index + 1);
                assert(next.drop_last() =~= self.strip_ranges(length as int, index as int));
            }
            canvas.status_bar.add_scheme_if_not_overlap(
                current_slot_start + 2..current_slot_start + 3,
                scheme,
            );
            current_slot_start += 3;
            index += 1;
        }
        raw_content[slots_section_end - 2] = BLANK;
        raw_content[slots_section_end - 1] = STRIP_END;
        assert(raw_content@ =~= self.strip(content));
        canvas.status_bar.set_raw_content(raw_content.as_slice());
    }

    /// The text of the line of the finder menu for the slot at `index`: its
    /// mark, its number, the switches and its pattern.
    pub open spec fn menu_text(&self, index: int) -> Seq<u8> {
        seq![BLANK, self.mark(index), BLANK, self.digit(index)] + encode_utf8(
            FINDER_MENU_SWITCHES@,
        ) + match self.slots@[index].pattern {
            Some(pattern) => encode_utf8(pattern@),
            None => Seq::empty(),
        }
    }

    /// The ranges of the line of the finder menu for the slot at `index`:
    /// the number in the colours of the slot, and dim each switch position
    /// that is not the one chosen.
    pub open spec fn menu_schemes(&self, index: int) -> Seq<StyledRange> {
        let slot = self.slots@[index];
        let dim = |start: usize, end: usize| StyledRange { start, end, scheme: RenderScheme::Dim };
        let number = seq![
            StyledRange { start: 3, end: 4, scheme: RenderScheme::Highlight(slot.highlight_option) },
        ];
        let flag = if slot.highlight_flag == HighlightFlag::On {
            number.push(dim(10, 13))
        } else {
            number.push(dim(7, 9))
        };
        let fold = if slot.advanced_action == AdvancedAction::Fold {
            flag
        } else {
            flag.push(dim(16, 20))
        };
        let exclusive = if slot.advanced_action == AdvancedAction::Exclusive {
            fold
        } else {
            fold.push(dim(21, 30))
        };
        if slot.pattern_type == PatternType::Raw {
            exclusive.push(dim(37, 42))
        } else {
            exclusive.push(dim(33, 36))
        }
    }

    /// True when a window of the given size shows the finder menu itself,
    /// not only its title.
    pub open spec fn menu_fits(window_width: int, window_height: int) -> bool {
        window_height >= FINDER_MENU_HEIGHT + 5 && window_width >= FINDER_MENU_MIN_WIDTH
    }

    /// The line of the finder menu for the slot at `index`.
    pub fn menu_line(&self, index: usize, window_width: usize) -> (line: LineWithRenderScheme)
        requires
            self.wf(),
            index < FINDER_SLOT_COUNT,
            window_width >= FINDER_MENU_MIN_WIDTH,
        ensures
            line@.content == cut_content(self.menu_text(index as int), 0, window_width as int),
            line@.schemes == self.menu_schemes(index as int),
            line.wf(),
            filled(line@),
    {
        let slot = &self.slots[index];
        let maybe_cursor = if self.active_slots.contains(&slot.slot_index) {
            ACTIVE_MARK
        } else {
            BLANK
        };
        let mut raw_line: Vec<u8> = Vec::new();
        raw_line.push(BLANK);
        raw_line.push(maybe_cursor);
        raw_line.push(BLANK);
        raw_line.push((48 + slot.slot_index) as u8);
        push_text(&mut raw_line, FINDER_MENU_SWITCHES);
        match &slot.pattern {
            Some(pattern) => {
                push_text(&mut raw_line, pattern.as_str());
            },
            None => {
                assert(raw_line@ + Seq::<u8>::empty() =~= raw_line@);
            },
        }
        proof {
            reveal_strlit(" | On Off | Fold Exclusive | Raw Regex | ");
            vstd::utf8::is_ascii_chars_encode_utf8(FINDER_MENU_SWITCHES@);
            assert(raw_line@ =~= self.menu_text(index as int));
            assert(raw_line@.len() >= 45);
        }
        let mut rendered_line = LineWithRenderScheme::new(raw_line.as_slice()).truncate(
            window_width,
        );
        assert(rendered_line@.schemes =~= Seq::<StyledRange>::empty());
        assert(rendered_line@.content.len() >= 45);
        rendered_line.add_scheme_if_not_overlap(3..4, RenderScheme::Highlight(slot.highlight_option));
        if slot.highlight_flag != HighlightFlag::On {
            rendered_line.add_scheme_if_not_overlap(7..9, RenderScheme::Dim);
        }
        if slot.highlight_flag != HighlightFlag::Off {
            rendered_line.add_scheme_if_not_overlap(10..13, RenderScheme::Dim);
        }
        if slot.advanced_action != AdvancedAction::Fold {
            rendered_line.add_scheme_if_not_overlap(16..20, RenderScheme::Dim);
        }
        if slot.advanced_action != AdvancedAction::Exclusive {
            rendered_line.add_scheme_if_not_overlap(21..30, RenderScheme::Dim);
        }
        if slot.pattern_type != PatternType::Raw {
            rendered_line.add_scheme_if_not_overlap(33..36, RenderScheme::Dim);
        }
        if slot.pattern_type != PatternType::Regex {
            rendered_line.add_scheme_if_not_overlap(37..42, RenderScheme::Dim);
        }
        assert(rendered_line@.schemes =~= self.menu_schemes(index as int));
        rendered_line
    }

    /// True when `after` is the canvas `before` with the finder menu put on
    /// it for a window of the given size: its title and a line for each slot
    /// as the popup menu, with an empty status bar; or, in a window too
    /// small for it, its title alone on the status bar.
    pub open spec fn menu_drawn(
        &self,
        before: &Canvas,
        after: &Canvas,
        window_width: int,
        window_height: int,
    ) -> bool {
        &&& after.body_area == before.body_area
        &&& after.cursor_pos_x == before.cursor_pos_x
        &&& after.status_bar@.schemes.len() == 0
        &&& if Self::menu_fits(window_width, window_height) {
                &&& after.popup_menu@.len() == FINDER_MENU_HEIGHT
                &&& after.popup_menu@[0]@.content == spec_menu_title(
                    encode_utf8(FINDER_MENU_STR@),
                    window_width,
                )
                &&& after.popup_menu@[0]@.schemes.len() == 0
                &&& forall|i: int|
                    0 <= i < FINDER_SLOT_COUNT ==> {
                        &&& (#[trigger] after.popup_menu@[i + 1])@.content == cut_content(
                            self.menu_text(i),
                            0,
                            window_width,
                        )
                        &&& after.popup_menu@[i + 1]@.schemes == self.menu_schemes(i)
                    }
                &&& after.status_bar@.content.len() == 0
            } else {
                &&& after.popup_menu == before.popup_menu
                &&& after.status_bar@.content == spec_menu_title(
                    encode_utf8(FINDER_MENU_STR@),
                    window_width,
                )
            }
    }

    /// Puts the finder menu on the canvas: its title and a line for each
    /// slot as the popup menu, with an empty status bar; or, in a window too
    /// small for it, its title alone on the status bar.
    pub fn render_menu(&self, canvas: &mut Canvas, window_width: usize, window_height: usize)
        requires
            self.wf(),
            old(canvas).wf(),
        ensures
            final(canvas).wf(),
            self.menu_drawn(old(canvas), final(canvas), window_width as int, window_height as int),
    {
        proof {
            reveal_strlit(" Finder Menu ");
            vstd::utf8::is_ascii_chars_encode_utf8(FINDER_MENU_STR@);
        }
        let title = menu_title(FINDER_MENU_STR, window_width);
        if window_height < FINDER_MENU_HEIGHT + 5 || window_width < FINDER_MENU_MIN_WIDTH {
            canvas.status_bar = LineWithRenderScheme::new(title.as_slice());
            return ;
        }
        canvas.popup_menu.clear();
        canvas.popup_menu.push(LineWithRenderScheme::new(title.as_slice()));
        let mut index: usize = 0;
        while index < FINDER_SLOT_COUNT
            invariant
                index <= FINDER_SLOT_COUNT,
                self.wf(),
                window_width >= FINDER_MENU_MIN_WIDTH,
                canvas.wf(),
                canvas.body_area == old(canvas).body_area,
                canvas.cursor_pos_x == old(canvas).cursor_pos_x,
                canvas.popup_menu@.len() == index + 1,
                canvas.popup_menu@[0]@.content == title@,
                canvas.popup_menu@[0]@.schemes.len() == 0,
                forall|i: int|
                    0 <= i < index ==> {
                        &&& (#[trigger] canvas.popup_menu@[i + 1])@.content == cut_content(
                            self.menu_text(i),
                            0,
                            window_width as int,
                        )
                        &&& canvas.popup_menu@[i + 1]@.schemes == self.menu_schemes(i)
                    },
            decreases FINDER_SLOT_COUNT - index,
        {
            let line = self.menu_line(index, window_width);
            canvas.popup_menu.push(line);
            index += 1;
        }
        canvas.status_bar = LineWithRenderScheme::empty();
    }
}

/// What the keys typed so far have announced.
#[derive(Debug, Clone, Copy, PartialEq, Eq, Structural)]
pub enum FinderEventParserState {
    Normal,
    /// A `+` was typed: the number of the slot to add follows.
    ParsedAdd,
    /// A `-` was typed: the number of the slot to remove follows.
    ParsedRemove,
}

/// Reads the keys that are meant for the finder.
#[derive(Debug, Clone, Copy, PartialEq, Eq, Structural)]
pub struct FinderEventParser {
    pub state: FinderEventParserState,
    pub menu_active: bool,
}

impl Default for FinderEventParser {
    fn default() -> (parser: Self)
        ensures
            parser.state == FinderEventParserState::Normal,
            !parser.menu_active,
    {
        Self { state: FinderEventParserState::Normal, menu_active: false }
    }
}

/// The digit that `c` is, where it is one.
pub open spec fn digit_of(c: char) -> Option<usize> {
    if '0' <= c <= '9' {
        Some((c as u32 - 48) as usize)
    } else {
        None
    }
}

impl FinderEventParser {
    pub fn set_state_to_normal(&mut self)
        ensures
            final(self).state == FinderEventParserState::Normal,
            final(self).menu_active == old(self).menu_active,
    {
        self.state = FinderEventParserState::Normal;
    }

    /// What the key `key` means to the finder, and the parser after it. A
    /// digit switches to the slot of that number, or adds or removes it
    /// after `+` or `-`; `o`, `f`, `e`, `r` and `x` turn over or reset the
    /// active slots; `m` opens and closes the menu; Esc calls off a `+` or
    /// `-`, or closes the menu. Keys pressed with more than Shift mean
    /// nothing, nor do the letters after `+` or `-`.
    pub open spec fn parses(&self, key: KeyEvent) -> (FinderEventParser, Option<FinderAction>) {
        let normal = self.state == FinderEventParserState::Normal;
        let unchanged = (*self, None::<FinderAction>);
        if !key.is_plain() {
            unchanged
        } else {
            match key.code {
                KeyCode::Char(c) => if c == '+' && normal {
                    (
                        FinderEventParser { state: FinderEventParserState::ParsedAdd, ..*self },
                        Some(FinderAction::AddActiveSlotStart),
                    )
                } else if c == '-' && normal {
                    (
                        FinderEventParser { state: FinderEventParserState::ParsedRemove, ..*self },
                        Some(FinderAction::RemoveActiveSlotStart),
                    )
                } else if digit_of(c) is Some {
                    (
                        FinderEventParser { state: FinderEventParserState::Normal, ..*self },
                        Some(
                            match self.state {
                                FinderEventParserState::Normal => FinderAction::SwitchActiveSlot(
                                    digit_of(c)->0,
                                ),
                                FinderEventParserState::ParsedAdd => FinderAction::AddActiveSlot(
                                    digit_of(c)->0,
                                ),
                                FinderEventParserState::ParsedRemove => FinderAction::RemoveActiveSlot(
                                    digit_of(c)->0,
                                ),
                            },
                        ),
                    )
                } else if c == 'o' && normal {
                    (*self, Some(FinderAction::ToggleHighlightFlag))
                } else if c == 'f' && normal {
                    (*self, Some(FinderAction::ToggleFoldAction))
                } else if c == 'e' && normal {
                    (*self, Some(FinderAction::ToggleExclusiveAction))
                } else if c == 'r' && normal {
                    (*self, Some(FinderAction::TogglePatternType))
                } else if c == 'x' && normal {
                    (*self, Some(FinderAction::ResetSlot))
                } else if c == 'm' && normal {
                    if self.menu_active {
                        (
                            FinderEventParser { menu_active: false, ..*self },
                            Some(FinderAction::MenuOff),
                        )
                    } else {
                        (
                            FinderEventParser { menu_active: true, ..*self },
                            Some(FinderAction::MenuOn),
                        )
                    }
                } else {
                    unchanged
                },
                KeyCode::Esc => if !normal {
                    (
                        FinderEventParser { state: FinderEventParserState::Normal, ..*self },
                        Some(FinderAction::AddOrRemoveActiveSlotCancel),
                    )
                } else if self.menu_active {
                    (FinderEventParser { menu_active: false, ..*self }, Some(FinderAction::MenuOff))
                } else {
                    unchanged
                },
                _ => unchanged,
            }
        }
    }

    /// Takes a key: see `parses`.
    pub fn try_parse_raw_event(&mut self, key: &KeyEvent) -> (action: Option<FinderAction>)
        ensures
            (*final(self), action) == old(self).parses(*key),
            action matches Some(FinderAction::SwitchActiveSlot(index)) ==> index <= 9,
            action matches Some(FinderAction::AddActiveSlot(index)) ==> index <= 9,
            action matches Some(FinderAction::RemoveActiveSlot(index)) ==> index <= 9,
    {
        if !key.plain() {
            return None;
        }
        let normal = self.state == FinderEventParserState::Normal;
        match key.code {
            KeyCode::Char(c) => {
                let code = c as u32;
                if c == '+' {
                    if normal {
                        self.state = FinderEventParserState::ParsedAdd;
                        return Some(FinderAction::AddActiveSlotStart);
                    }
                } else if c == '-' {
                    if normal {
                        self.state = FinderEventParserState::ParsedRemove;
                        return Some(FinderAction::RemoveActiveSlotStart);
                    }
                } else if 48 <= code && code <= 57 {
                    let index = (code - 48) as usize;
                    let state = self.state;
                    self.state = FinderEventParserState::Normal;
                    return match state {
                        FinderEventParserState::Normal => Some(FinderAction::SwitchActiveSlot(index)),
                        FinderEventParserState::ParsedAdd => Some(FinderAction::AddActiveSlot(index)),
                        FinderEventParserState::ParsedRemove => Some(
                            FinderAction::RemoveActiveSlot(index),
                        ),
                    };
                } else if c == 'o' {
                    if normal {
                        return Some(FinderAction::ToggleHighlightFlag);
                    }
                } else if c == 'f' {
                    if normal {
                        return Some(FinderAction::ToggleFoldAction);
                    }
                } else if c == 'e' {
                    if normal {
                        return Some(FinderAction::ToggleExclusiveAction);
                    }
                } else if c == 'r' {
                    if normal {
                        return Some(FinderAction::TogglePatternType);
                    }
                } else if c == 'x' {
                    if normal {
                        return Some(FinderAction::ResetSlot);
                    }
                } else if c == 'm' {
                    if normal {
                        return if self.menu_active {
                            self.menu_active = false;
                            Some(FinderAction::MenuOff)
                        } else {
                            self.menu_active = true;
                            Some(FinderAction::MenuOn)
                        };
                    }
                }
                None
            },
            KeyCode::Esc => {
                if !normal {
                    self.state = FinderEventParserState::Normal;
                    return Some(FinderAction::AddOrRemoveActiveSlotCancel);
                }
                if self.menu_active {
                    self.menu_active = false;
                    return Some(FinderAction::MenuOff);
                }
                None
            },
            _ => None,
        }
    }
}

} // verus!
