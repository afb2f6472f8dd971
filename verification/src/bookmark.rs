//! Bookmarks: named offsets, kept in the order of their names, and the menu
//! that picks one.

use crate::canvas::{menu_title, push_blanks, push_text, spec_menu_title, Canvas, BLANK};
use crate::event_source::{pop_char, push_char, Direction, KeyCode, KeyEvent};
use crate::render::{cut_content, LineWithRenderScheme};
use crate::finder::{find_bytes, first_occurrence};
use vstd::prelude::*;
use vstd::slice::slice_to_vec;
use vstd::string::{StrSliceExecFns, StringExecFns};
use vstd::string::StringSliceAdditionalSpecFns;
use vstd::utf8::encode_utf8;

verus! {

/// The greatest number of bytes that the name of a bookmark may have.
pub const BOOKMARK_NAME_MAX_LEN: usize = 50;

/// A named offset with the line that starts there.
#[derive(Debug, PartialEq, Eq)]
pub struct Bookmark {
    pub name: String,
    pub offset: usize,
    pub line: Vec<u8>,
}

/// A bookmark as a mathematical value.
pub ghost struct BookmarkView {
    pub name: Seq<char>,
    pub offset: usize,
    pub line: Seq<u8>,
}

impl View for Bookmark {
    type V = BookmarkView;

    open spec fn view(&self) -> BookmarkView {
        BookmarkView { name: self.name@, offset: self.offset, line: self.line@ }
    }
}

/// The bookmarks of `list` as mathematical values.
pub open spec fn views(list: Seq<Bookmark>) -> Seq<BookmarkView> {
    Seq::new(list.len(), |i: int| list[i]@)
}

/// How one sequence of bytes stands to another in the order of a
/// dictionary.
#[derive(Debug, Clone, Copy, PartialEq, Eq, Structural)]
pub enum Rank {
    Before,
    Same,
    After,
}

/// How `a` stands to `b` in the order of a dictionary, byte for byte: the
/// order in which text is sorted.
pub open spec fn rank(a: Seq<u8>, b: Seq<u8>) -> Rank
    decreases a.len(),
{
    if a.len() == 0 && b.len() == 0 {
        Rank::Same
    } else if a.len() == 0 {
        Rank::Before
    } else if b.len() == 0 {
        Rank::After
    } else if a[0] < b[0] {
        Rank::Before
    } else if a[0] > b[0] {
        Rank::After
    } else {
        rank(a.drop_first(), b.drop_first())
    }
}

/// Sequences of the same rank are the same.
pub proof fn lemma_rank_same(a: Seq<u8>, b: Seq<u8>)
    ensures
        rank(a, b) == Rank::Same <==> a == b,
    decreases a.len(),
{
    if a.len() > 0 && b.len() > 0 && a[0] == b[0] {
        lemma_rank_same(a.drop_first(), b.drop_first());
        if a.drop_first() == b.drop_first() {
            assert(a =~= seq![a[0]] + a.drop_first());
            assert(b =~= seq![b[0]] + b.drop_first());
        }
    } else if a.len() == 0 && b.len() == 0 {
        assert(a =~= b);
    }
}

/// The order is the same read from either side.
pub proof fn lemma_rank_mirror(a: Seq<u8>, b: Seq<u8>)
    ensures
        rank(a, b) == Rank::Before <==> rank(b, a) == Rank::After,
    decreases a.len(),
{
    if a.len() > 0 && b.len() > 0 && a[0] == b[0] {
        lemma_rank_mirror(a.drop_first(), b.drop_first());
    }
}

/// What stands before something that stands before a third stands before
/// the third.
pub proof fn lemma_rank_chain(a: Seq<u8>, b: Seq<u8>, c: Seq<u8>)
    requires
        rank(a, b) == Rank::Before,
        rank(b, c) != Rank::After,
    ensures
        rank(a, c) == Rank::Before,
    decreases a.len(),
{
    if a.len() > 0 && b.len() > 0 && c.len() > 0 && a[0] == b[0] && b[0] == c[0] {
        lemma_rank_chain(a.drop_first(), b.drop_first(), c.drop_first());
    }
}

/// How `a` stands to `b` in the order of a dictionary.
pub fn compare_bytes(a: &[u8], b: &[u8]) -> (order: Rank)
    ensures
        order == rank(a@, b@),
{
    let a_len = a.len();
    let b_len = b.len();
    let mut i: usize = 0;
    assert(a@.skip(0) =~= a@ && b@.skip(0) =~= b@);
    while i < a_len && i < b_len
        invariant
            i <= a_len == a@.len(),
            i <= b_len == b@.len(),
            rank(a@, b@) == rank(a@.skip(i as int), b@.skip(i as int)),
        decreases a_len - i,
    {
        proof {
            assert(a@.skip(i as int).drop_first() =~= a@.skip(i + 1));
            assert(b@.skip(i as int).drop_first() =~= b@.skip(i + 1));
        }
        if a[i] < b[i] {
            return Rank::Before;
        }
        if a[i] > b[i] {
            return Rank::After;
        }
        i += 1;
    }
    if i < b_len {
        Rank::Before
    } else if i < a_len {
        Rank::After
    } else {
        Rank::Same
    }
}

/// The bookmarks among `list` whose names hold `filter`, in their order.
pub open spec fn select(list: Seq<BookmarkView>, filter: Seq<char>) -> Seq<BookmarkView>
    decreases list.len(),
{
    if list.len() == 0 {
        Seq::empty()
    } else if first_occurrence(encode_utf8(list.last().name), encode_utf8(filter), 0) is Some {
        select(list.drop_last(), filter).push(list.last())
    } else {
        select(list.drop_last(), filter)
    }
}

/// The first place in `list` of a bookmark with the name `name`.
pub open spec fn place_of(list: Seq<BookmarkView>, name: Seq<char>) -> Option<int>
    decreases list.len(),
{
    if list.len() == 0 {
        None
    } else if place_of(list.drop_last(), name) is Some {
        place_of(list.drop_last(), name)
    } else if list.last().name == name {
        Some(list.len() - 1)
    } else {
        None
    }
}

/// What the bookmark menu is asked to do.
#[derive(Debug, PartialEq, Eq)]
pub enum BookmarkMenuAction {
    Start,
    Arrow(Direction),
    /// The filter is now the text given.
    Content(String),
    Enter,
    Cancel,
}

/// The bookmarks and the state of their menu.
#[derive(Debug)]
pub struct BookmarkStore {
    pub bookmarks: Vec<Bookmark>,
    pub menu_index: Option<usize>,
    pub filtered_bookmarks: Vec<Bookmark>,
    pub filter_content: String,
}

impl Default for BookmarkStore {
    fn default() -> (store: Self)
        ensures
            store.wf(),
            store.bookmarks@.len() == 0,
            store.filtered_bookmarks@.len() == 0,
            store.menu_index is None,
            store.filter_content@.len() == 0,
    {
        Self {
            bookmarks: Vec::new(),
            menu_index: None,
            filtered_bookmarks: Vec::new(),
            filter_content: String::new(),
        }
    }
}

impl BookmarkStore {
    /// True when the names of `list` stand in the order of a dictionary and
    /// none occurs twice.
    pub open spec fn sorted(list: Seq<BookmarkView>) -> bool {
        forall|i: int, j: int|
            0 <= i < j < list.len() ==> rank(
                encode_utf8(#[trigger] list[i].name),
                encode_utf8(#[trigger] list[j].name),
            ) == Rank::Before
    }

    /// The invariant of the store: the bookmarks stand in the order of
    /// their names, no name occurs twice, and the menu points at one of the
    /// bookmarks shown, or at the first place where none is shown.
    pub open spec fn wf(&self) -> bool {
        &&& Self::sorted(views(self.bookmarks@))
        &&& self.menu_index matches Some(index) ==> index == 0 || index
            < self.filtered_bookmarks@.len()
    }

    /// True when `after` is `before` with `bookmark` put at its place in the
    /// order, in place of a bookmark of the same name where there is one.
    pub open spec fn put(
        before: Seq<BookmarkView>,
        after: Seq<BookmarkView>,
        bookmark: BookmarkView,
    ) -> bool {
        exists|place: int|
            {
                &&& 0 <= place <= before.len()
                &&& forall|k: int|
                    0 <= k < place ==> rank(
                        encode_utf8(#[trigger] before[k].name),
                        encode_utf8(bookmark.name),
                    ) == Rank::Before
                &&& #[trigger] Self::found_at(before, after, bookmark, place)
            }
    }

    /// True when `place` is where `bookmark` belongs in `before` and `after`
    /// has it there.
    pub open spec fn found_at(
        before: Seq<BookmarkView>,
        after: Seq<BookmarkView>,
        bookmark: BookmarkView,
        place: int,
    ) -> bool {
        if place < before.len() && before[place].name == bookmark.name {
            after == before.update(place, bookmark)
        } else {
            &&& place < before.len() ==> rank(
                encode_utf8(bookmark.name),
                encode_utf8(before[place].name),
            ) == Rank::Before
            &&& after == before.insert(place, bookmark)
        }
    }

    /// Keeps `offset` and the line that starts there under `name`, in place
    /// of what was kept under that name.
    pub fn new_bookmark(&mut self, name: &str, offset: usize, line: &[u8])
        requires
            old(self).wf(),
        ensures
            final(self).wf(),
            Self::put(
                views(old(self).bookmarks@),
                views(final(self).bookmarks@),
                BookmarkView { name: name@, offset, line: line@ },
            ),
            final(self).menu_index == old(self).menu_index,
            final(self).filtered_bookmarks == old(self).filtered_bookmarks,
            final(self).filter_content == old(self).filter_content,
    {
        let ghost before = views(self.bookmarks@);
        let ghost added = BookmarkView { name: name@, offset, line: line@ };
        let bookmark = Bookmark { name: String::from_str(name), offset, line: slice_to_vec(line) };
        let count = self.bookmarks.len();
        let mut place: usize = 0;
        let mut same = false;
        while place < count
            invariant_except_break
                !same,
            invariant
                place <= count == self.bookmarks@.len(),
                *self == *old(self),
                before == views(self.bookmarks@),
                forall|k: int|
                    0 <= k < place ==> rank(
                        encode_utf8(#[trigger] before[k].name),
                        encode_utf8(name@),
                    ) == Rank::Before,
            ensures
                place <= count,
                forall|k: int|
                    0 <= k < place ==> rank(
                        encode_utf8(#[trigger] before[k].name),
                        encode_utf8(name@),
                    ) == Rank::Before,
                place < count ==> rank(encode_utf8(before[place as int].name), encode_utf8(name@))
                    != Rank::Before,
                same == (place < count && before[place as int].name == name@),
            decreases count - place,
        {
            let order = compare_bytes(
                self.bookmarks[place].name.as_str().as_bytes(),
                name.as_bytes(),
            );
            proof {
                lemma_rank_same(encode_utf8(before[place as int].name), encode_utf8(name@));
                vstd::utf8::encode_utf8_decode_utf8(before[place as int].name);
                vstd::utf8::encode_utf8_decode_utf8(name@);
            }
            match order {
                Rank::Before => {
                    place += 1;
                },
                Rank::Same => {
                    same = true;
                    break ;
                },
                Rank::After => {
                    break ;
                },
            }
        }
        proof {
            if place < count {
                vstd::utf8::encode_utf8_decode_utf8(before[place as int].name);
                vstd::utf8::encode_utf8_decode_utf8(name@);
                lemma_rank_mirror(encode_utf8(name@), encode_utf8(before[place as int].name));
                lemma_rank_same(encode_utf8(before[place as int].name), encode_utf8(name@));
                lemma_rank_same(encode_utf8(name@), encode_utf8(before[place as int].name));
            }
        }
        if same {
            self.bookmarks[place] = bookmark;
            assert(views(self.bookmarks@) =~= before.update(place as int, added));
        } else {
            self.bookmarks.insert(place, bookmark);
            assert(views(self.bookmarks@) =~= before.insert(place as int, added));
        }
        proof {
            let after = views(self.bookmarks@);
            assert(Self::found_at(before, after, added, place as int));
            assert forall|i: int, j: int| 0 <= i < j < after.len() implies rank(
                encode_utf8(#[trigger] after[i].name),
                encode_utf8(#[trigger] after[j].name),
            ) == Rank::Before by {
                if same {
                    assert(after[i].name == before[i].name);
                    assert(after[j].name == before[j].name);
                } else if j < place {
                    assert(after[i] == before[i] && after[j] == before[j]);
                } else if j == place {
                    assert(after[i] == before[i]);
                } else if i < place {
                    assert(after[i] == before[i] && after[j] == before[j - 1]);
                    if j - 1 > place {
                        assert(rank(
                            encode_utf8(before[place as int].name),
                            encode_utf8(before[j - 1].name),
                        ) == Rank::Before);
                    }
                } else if i == place {
                    assert(after[j] == before[j - 1]);
                    if j - 1 > place {
                        lemma_rank_chain(
                            encode_utf8(name@),
                            encode_utf8(before[place as int].name),
                            encode_utf8(before[j - 1].name),
                        );
                    }
                } else {
                    assert(after[i] == before[i - 1] && after[j] == before[j - 1]);
                }
            }
        }
    }

    pub fn is_active(&self) -> (active: bool)
        ensures
            active == self.menu_index is Some,
    {
        self.menu_index.is_some()
    }

    /// Closes the menu and returns the bookmark that it pointed at, where
    /// bookmarks are shown; else leaves the menu as it is.
    pub fn handle_enter_event(&mut self) -> (picked: Option<&Bookmark>)
        requires
            old(self).wf(),
            old(self).filtered_bookmarks@.len() > 0 ==> old(self).menu_index is Some,
        ensures
            final(self).wf(),
            final(self).bookmarks == old(self).bookmarks,
            final(self).filtered_bookmarks == old(self).filtered_bookmarks,
            final(self).filter_content == old(self).filter_content,
            match picked {
                Some(bookmark) => old(self).filtered_bookmarks@.len() > 0
                    && *bookmark == old(self).filtered_bookmarks@[old(self).menu_index->0 as int]
                    && final(self).menu_index
                    is None,
                None => old(self).filtered_bookmarks@.len() == 0
                    && final(self).menu_index == old(self).menu_index,
            },
    {
        if self.filtered_bookmarks.len() == 0 {
            None
        } else {
            let index = self.menu_index.unwrap();
            self.menu_index = None;
            Some(&self.filtered_bookmarks[index])
        }
    }

    /// The name of the bookmark that the menu points at.
    pub fn current_bookmark(&self) -> (name: &str)
        requires
            self.menu_index matches Some(index) && index < self.filtered_bookmarks@.len(),
        ensures
            name@ == self.filtered_bookmarks@[self.menu_index->0 as int].name@,
    {
        self.filtered_bookmarks[self.menu_index.unwrap()].name.as_str()
    }

    /// Shows the bookmarks whose names hold `filter_content`.
    pub fn load_filtered_bookmarks(&mut self, filter_content: &str)
        ensures
            views(final(self).filtered_bookmarks@) == select(
                views(old(self).bookmarks@),
                filter_content@,
            ),
            final(self).bookmarks == old(self).bookmarks,
            final(self).menu_index == old(self).menu_index,
            final(self).filter_content == old(self).filter_content,
    {
        let mut filtered: Vec<Bookmark> = Vec::new();
        let needle = filter_content.as_bytes();
        let mut i: usize = 0;
        assert(views(filtered@) =~= select(views(self.bookmarks@.take(0)), filter_content@));
        while i < self.bookmarks.len()
            invariant
                i <= self.bookmarks@.len(),
                *self == *old(self),
                needle@ == encode_utf8(filter_content@),
                views(filtered@) == select(views(self.bookmarks@.take(i as int)), filter_content@),
            decreases self.bookmarks@.len() - i,
        {
            let bookmark = &self.bookmarks[i];
            let ghost before = views(filtered@);
            proof {
                let upto = views(self.bookmarks@.take(i + 1));
                assert(upto.drop_last() =~= views(self.bookmarks@.take(i as int)));
                assert(upto.last() == bookmark@);
            }
            if find_bytes(bookmark.name.as_str().as_bytes(), needle, 0).is_some() {
                let copy = Bookmark {
                    name: bookmark.name.clone(),
                    offset: bookmark.offset,
                    line: slice_to_vec(bookmark.line.as_slice()),
                };
                filtered.push(copy);
                assert(views(filtered@) =~= before.push(bookmark@));
            }
            i += 1;
        }
        assert(self.bookmarks@.take(i as int) =~= self.bookmarks@);
        self.filtered_bookmarks = filtered;
    }

    /// The first place among the bookmarks shown of one with the name
    /// `name`.
    pub fn position_of(&self, name: &String) -> (place: Option<usize>)
        ensures
            match place {
                Some(index) => place_of(views(self.filtered_bookmarks@), name@) == Some(
                    index as int,
                ) && index < self.filtered_bookmarks@.len(),
                None => place_of(views(self.filtered_bookmarks@), name@) is None,
            },
    {
        let mut i: usize = 0;
        assert(self.filtered_bookmarks@.take(0) =~= Seq::<Bookmark>::empty());
        while i < self.filtered_bookmarks.len()
            invariant
                i <= self.filtered_bookmarks@.len(),
                place_of(views(self.filtered_bookmarks@.take(i as int)), name@) is None,
            decreases self.filtered_bookmarks@.len() - i,
        {
            proof {
                let upto = views(self.filtered_bookmarks@.take(i + 1));
                assert(upto.drop_last() =~= views(self.filtered_bookmarks@.take(i as int)));
                assert(upto.last() == self.filtered_bookmarks@[i as int]@);
            }
            if self.filtered_bookmarks[i].name == *name {
                proof {
                    Self::lemma_place_stays(
                        views(self.filtered_bookmarks@),
                        name@,
                        i + 1,
                        self.filtered_bookmarks@.len() as int,
                    );
                    assert(views(self.filtered_bookmarks@).take(i + 1) =~= views(
                        self.filtered_bookmarks@.take(i + 1),
                    ));
                    assert(views(self.filtered_bookmarks@).take(
                        self.filtered_bookmarks@.len() as int,
                    ) =~= views(self.filtered_bookmarks@));
                }
                return Some(i);
            }
            i += 1;
        }
        assert(self.filtered_bookmarks@.take(i as int) =~= self.filtered_bookmarks@);
        None
    }

    /// A place found among the first bookmarks is the place found among
    /// more of them.
    pub proof fn lemma_place_stays(list: Seq<BookmarkView>, name: Seq<char>, m: int, n: int)
        requires
            0 <= m <= n <= list.len(),
            place_of(list.take(m), name) is Some,
        ensures
            place_of(list.take(n), name) == place_of(list.take(m), name),
        decreases n - m,
    {
        if m < n {
            Self::lemma_place_stays(list, name, m, n - 1);
            assert(list.take(n).drop_last() =~= list.take(n - 1));
        }
    }

    /// Does what `action` asks of the menu: opens it with all bookmarks
    /// shown, moves it up or down among the bookmarks shown, round the ends,
    /// shows the bookmarks that a new filter leaves, or closes it.
    pub fn handle_other_event(&mut self, action: BookmarkMenuAction)
        requires
            old(self).wf(),
            match action {
                BookmarkMenuAction::Start => old(self).menu_index is None,
                BookmarkMenuAction::Arrow(direction) => old(self).menu_index is Some && (direction
                    == Direction::Up || direction == Direction::Down),
                BookmarkMenuAction::Content(_) => old(self).menu_index is Some,
                BookmarkMenuAction::Enter => false,
                BookmarkMenuAction::Cancel => true,
            },
        ensures
            final(self).wf(),
            final(self).bookmarks == old(self).bookmarks,
            match action {
                BookmarkMenuAction::Start => {
                    &&& final(self).menu_index == Some(0usize)
                    &&& views(final(self).filtered_bookmarks@) == select(
                        views(old(self).bookmarks@),
                        Seq::empty(),
                    )
                    &&& final(self).filter_content == old(self).filter_content
                },
                BookmarkMenuAction::Arrow(direction) => {
                    let count = old(self).filtered_bookmarks@.len();
                    let index = old(self).menu_index->0;
                    &&& final(self).filtered_bookmarks == old(self).filtered_bookmarks
                    &&& final(self).filter_content == old(self).filter_content
                    &&& final(self).menu_index == if count == 0 {
                        old(self).menu_index
                    } else if direction == Direction::Up {
                        if index == 0 {
                            Some((count - 1) as usize)
                        } else {
                            Some((index - 1) as usize)
                        }
                    } else {
                        if index + 1 == count {
                            Some(0usize)
                        } else {
                            Some((index + 1) as usize)
                        }
                    }
                },
                BookmarkMenuAction::Content(filter) => {
                    let shown = select(views(old(self).bookmarks@), filter@);
                    let name = if old(self).filtered_bookmarks@.len() == 0 {
                        Seq::<char>::empty()
                    } else {
                        old(self).filtered_bookmarks@[old(self).menu_index->0 as int].name@
                    };
                    &&& views(final(self).filtered_bookmarks@) == shown
                    &&& final(self).filter_content@ == filter@
                    &&& final(self).menu_index == match place_of(shown, name) {
                        Some(place) => Some(place as usize),
                        None => Some(0usize),
                    }
                },
                BookmarkMenuAction::Enter => true,
                BookmarkMenuAction::Cancel => {
                    &&& final(self).menu_index is None
                    &&& final(self).filtered_bookmarks == old(self).filtered_bookmarks
                    &&& final(self).filter_content == old(self).filter_content
                },
            },
    {
        match action {
            BookmarkMenuAction::Start => {
                self.menu_index = Some(0);
                self.load_filtered_bookmarks("");
                proof {
                    reveal_strlit("");
                    assert(""@ =~= Seq::<char>::empty());
                }
            },
            BookmarkMenuAction::Arrow(direction) => {
                let count = self.filtered_bookmarks.len();
                if count == 0 {
                    return ;
                }
                let index = self.menu_index.unwrap();
                self.menu_index = Some(
                    if direction == Direction::Up {
                        if index == 0 {
                            count - 1
                        } else {
                            index - 1
                        }
                    } else {
                        if index + 1 == count {
                            0
                        } else {
                            index + 1
                        }
                    },
                );
            },
            BookmarkMenuAction::Content(filter_content) => {
                let prev_bookmark = if self.filtered_bookmarks.len() == 0 {
                    String::new()
                } else {
                    String::from_str(self.current_bookmark())
                };
                self.load_filtered_bookmarks(filter_content.as_str());
                match self.position_of(&prev_bookmark) {
                    Some(index) => {
                        self.menu_index = Some(index);
                    },
                    None => {
                        // the bookmark pointed at is gone with the new filter
                        self.menu_index = Some(0);
                    },
                }
                self.filter_content = filter_content;
            },
            BookmarkMenuAction::Enter => {},
            BookmarkMenuAction::Cancel => {
                self.menu_index = None;
            },
        }
    }
}

/// The number of lines of the bookmark menu.
pub const BOOKMARK_MENU_HEIGHT: usize = 10;

/// The name in the title of the bookmark menu.
pub const BOOK_MENU_STR: &'static str = " Bookmark Menu ";

/// The words before the filter on the status bar.
pub const BOOKMARK_FILTER_STR: &'static str = "Filter bookmark: ";

/// The byte of the sign that marks the bookmark that the menu points at.
pub const MENU_POINTER: u8 = 62;

/// The line of the bookmark menu for `bookmark`: a pointer where the menu
/// points at it, its name in a column of fifty characters, and its line.
pub open spec fn bookmark_text(bookmark: BookmarkView, pointed: bool) -> Seq<u8> {
    let padding = if bookmark.name.len() < BOOKMARK_NAME_MAX_LEN {
        BOOKMARK_NAME_MAX_LEN - bookmark.name.len()
    } else {
        0
    };
    seq![BLANK, if pointed {
        MENU_POINTER
    } else {
        BLANK
    }, BLANK] + encode_utf8(bookmark.name) + Seq::new((padding + 4) as nat, |i: int| BLANK)
        + bookmark.line
}

/// The line of the bookmark menu for `bookmark`.
pub fn bookmark_line(bookmark: &Bookmark, pointed: bool, window_width: usize) -> (line:
    LineWithRenderScheme)
    ensures
        line@.content == cut_content(bookmark_text(bookmark@, pointed), 0, window_width as int),
        line@.schemes.len() == 0,
        line.wf(),
        crate::render::filled(line@),
{
    let maybe_cursor = if pointed {
        MENU_POINTER
    } else {
        BLANK
    };
    let mut raw_line: Vec<u8> = Vec::new();
    raw_line.push(BLANK);
    raw_line.push(maybe_cursor);
    raw_line.push(BLANK);
    push_text(&mut raw_line, bookmark.name.as_str());
    let width = bookmark.name.as_str().unicode_len();
    let padding = if width < BOOKMARK_NAME_MAX_LEN {
        BOOKMARK_NAME_MAX_LEN - width
    } else {
        0
    };
    push_blanks(&mut raw_line, padding + 4);
    raw_line.extend_from_slice(bookmark.line.as_slice());
    assert(raw_line@ =~= bookmark_text(bookmark@, pointed));
    let line = LineWithRenderScheme::new(raw_line.as_slice()).truncate(window_width);
    assert(line@.schemes =~= Seq::empty());
    line
}

impl BookmarkStore {
    /// The place among the bookmarks shown of the first that the menu
    /// lists: that which it points at, or the ninth from the end where
    /// fewer than ten follow from there on.
    pub open spec fn first_listed(&self) -> int {
        let count = self.filtered_bookmarks@.len() as int;
        let index = self.menu_index->0 as int;
        if index + BOOKMARK_MENU_HEIGHT > count {
            if count < BOOKMARK_MENU_HEIGHT - 1 {
                0
            } else {
                count - (BOOKMARK_MENU_HEIGHT - 1)
            }
        } else {
            index
        }
    }

    /// The number of bookmarks that the menu lists: nine at most.
    pub open spec fn listed(&self) -> int {
        let rest = self.filtered_bookmarks@.len() - self.first_listed();
        if rest < BOOKMARK_MENU_HEIGHT - 1 {
            rest
        } else {
            BOOKMARK_MENU_HEIGHT - 1
        }
    }

    /// The text of the status bar under the open menu: the filter after
    /// its name.
    pub open spec fn filter_text(&self) -> Seq<u8> {
        encode_utf8(BOOKMARK_FILTER_STR@) + encode_utf8(self.filter_content@)
    }

    /// True when `after` is the canvas `before` with the bookmark menu put
    /// on it for a window of the given size: its title, up to nine of the
    /// bookmarks shown and empty lines up to ten lines as the popup menu,
    /// and the filter on the status bar with the cursor behind it; or, in a
    /// window too low for it, its title alone on the status bar.
    pub open spec fn drawn(
        &self,
        before: &Canvas,
        after: &Canvas,
        window_width: int,
        window_height: int,
    ) -> bool {
        &&& after.body_area == before.body_area
        &&& after.status_bar@.schemes.len() == 0
        &&& if window_height < BOOKMARK_MENU_HEIGHT + 5 {
                &&& after.popup_menu == before.popup_menu
                &&& after.status_bar@.content == spec_menu_title(
                    encode_utf8(BOOK_MENU_STR@),
                    window_width,
                )
                &&& after.cursor_pos_x is None
            } else {
                &&& after.popup_menu@.len() == BOOKMARK_MENU_HEIGHT
                &&& after.popup_menu@[0]@.content == spec_menu_title(
                    encode_utf8(BOOK_MENU_STR@),
                    window_width,
                )
                &&& forall|i: int|
                    0 <= i < self.listed() ==> (#[trigger] after.popup_menu@[i + 1])@.content
                        == cut_content(
                        bookmark_text(
                            self.filtered_bookmarks@[self.first_listed() + i]@,
                            self.first_listed() + i == self.menu_index->0,
                        ),
                        0,
                        window_width,
                    )
                &&& forall|i: int|
                    self.listed() < i < BOOKMARK_MENU_HEIGHT
                        ==> (#[trigger] after.popup_menu@[i])@.content.len() == 0
                &&& forall|i: int|
                    0 <= i < BOOKMARK_MENU_HEIGHT
                        ==> (#[trigger] after.popup_menu@[i])@.schemes.len() == 0
                &&& after.status_bar@.content == cut_content(
                    self.filter_text(),
                    0,
                    window_width,
                )
                &&& after.cursor_pos_x == Some(self.filter_text().len() as usize)
            }
    }

    /// Puts the bookmark menu on the canvas: its title, up to nine of the
    /// bookmarks shown and empty lines up to ten lines as the popup menu,
    /// and the filter on the status bar with the cursor behind it; or, in a
    /// window too low for it, its title alone on the status bar.
    pub fn render(&self, canvas: &mut Canvas, window_width: usize, window_height: usize)
        requires
            self.wf(),
            self.menu_index is Some,
            old(canvas).wf(),
        ensures
            final(canvas).wf(),
            self.drawn(old(canvas), final(canvas), window_width as int, window_height as int),
    {
        proof {
            reveal_strlit(" Bookmark Menu ");
            vstd::utf8::is_ascii_chars_encode_utf8(BOOK_MENU_STR@);
        }
        let title = menu_title(BOOK_MENU_STR, window_width);
        if window_height < BOOKMARK_MENU_HEIGHT + 5 {
            canvas.status_bar = LineWithRenderScheme::new(title.as_slice());
            canvas.cursor_pos_x = None;
            return ;
        }
        canvas.popup_menu.clear();
        canvas.popup_menu.push(LineWithRenderScheme::new(title.as_slice()));
        let menu_index = self.menu_index.unwrap();
        let count = self.filtered_bookmarks.len();
        let first = if count < BOOKMARK_MENU_HEIGHT || menu_index > count - BOOKMARK_MENU_HEIGHT {
            if count < BOOKMARK_MENU_HEIGHT - 1 {
                0
            } else {
                count - (BOOKMARK_MENU_HEIGHT - 1)
            }
        } else {
            menu_index
        };
        let listed = if count - first < BOOKMARK_MENU_HEIGHT - 1 {
            count - first
        } else {
            BOOKMARK_MENU_HEIGHT - 1
        };
        let mut i: usize = 0;
        while i < listed
            invariant
                i <= listed,
                first == self.first_listed(),
                listed == self.listed(),
                first + listed <= count == self.filtered_bookmarks@.len(),
                self.menu_index == Some(menu_index),
                canvas.wf(),
                canvas.body_area == old(canvas).body_area,
                canvas.popup_menu@.len() == i + 1,
                canvas.popup_menu@[0]@.content == title@,
                canvas.popup_menu@[0]@.schemes.len() == 0,
                forall|k: int|
                    0 <= k < i ==> (#[trigger] canvas.popup_menu@[k + 1])@.content == cut_content(
                        bookmark_text(
                            self.filtered_bookmarks@[first + k]@,
                            first + k == menu_index,
                        ),
                        0,
                        window_width as int,
                    ) && canvas.popup_menu@[k + 1]@.schemes.len() == 0,
            decreases listed - i,
        {
            let line = bookmark_line(
                &self.filtered_bookmarks[first + i],
                first + i == menu_index,
                window_width,
            );
            canvas.popup_menu.push(line);
            i += 1;
        }
        let mut filled: usize = listed + 1;
        while filled < BOOKMARK_MENU_HEIGHT
            invariant
                listed + 1 <= filled <= BOOKMARK_MENU_HEIGHT,
                first == self.first_listed(),
                listed == self.listed(),
                self.menu_index == Some(menu_index),
                canvas.wf(),
                canvas.body_area == old(canvas).body_area,
                canvas.popup_menu@.len() == filled,
                canvas.popup_menu@[0]@.content == title@,
                canvas.popup_menu@[0]@.schemes.len() == 0,
                forall|k: int|
                    0 <= k < listed ==> (#[trigger] canvas.popup_menu@[k + 1])@.content
                        == cut_content(
                        bookmark_text(
                            self.filtered_bookmarks@[first + k]@,
                            first + k == menu_index,
                        ),
                        0,
                        window_width as int,
                    ) && canvas.popup_menu@[k + 1]@.schemes.len() == 0,
                forall|k: int|
                    listed < k < filled ==> (#[trigger] canvas.popup_menu@[k])@.content.len() == 0
                        && canvas.popup_menu@[k]@.schemes.len() == 0,
            decreases BOOKMARK_MENU_HEIGHT - filled,
        {
            canvas.popup_menu.push(LineWithRenderScheme::empty());
            filled += 1;
        }
        let mut status_bar_text: Vec<u8> = Vec::new();
        push_text(&mut status_bar_text, BOOKMARK_FILTER_STR);
        push_text(&mut status_bar_text, self.filter_content.as_str());
        assert(status_bar_text@ =~= self.filter_text());
        let line = LineWithRenderScheme::new(status_bar_text.as_slice()).truncate(window_width);
        assert(line@.schemes =~= Seq::empty());
        canvas.status_bar = line;
        canvas.cursor_pos_x = Some(status_bar_text.len());
        proof {
            assert forall|k: int| 0 <= k < BOOKMARK_MENU_HEIGHT implies (
            #[trigger] canvas.popup_menu@[k])@.schemes.len() == 0 by {
                if 1 <= k <= listed {
                    assert(canvas.popup_menu@[(k - 1) + 1]@.schemes.len() == 0);
                }
            }
        }
    }
}

/// The part of the bookmark menu that reads the keys.
#[derive(Debug)]
pub struct BookMarkMenu {
    pub active: bool,
    pub filter_content: String,
}

impl Default for BookMarkMenu {
    fn default() -> (menu: Self)
        ensures
            !menu.active,
            menu.filter_content@.len() == 0,
    {
        Self { active: false, filter_content: String::new() }
    }
}

impl BookMarkMenu {
    pub fn is_active(&self) -> (active: bool)
        ensures
            active == self.active,
    {
        self.active
    }

    pub fn activate(&mut self)
        requires
            !old(self).active,
        ensures
            final(self).active,
            final(self).filter_content == old(self).filter_content,
    {
        self.active = true;
    }

    /// True when `after` and `action` are what the key `key` makes of this
    /// open menu: a character is put at the end of the filter and Backspace
    /// takes the last one off; Enter and Esc close the menu; Up and Down
    /// leave it as it is. Keys pressed with more than Shift, and other keys,
    /// do nothing.
    pub open spec fn handles(
        &self,
        key: KeyEvent,
        after: &BookMarkMenu,
        action: Option<BookmarkMenuAction>,
    ) -> bool {
        if !key.is_plain() {
            action is None && *after == *self
        } else {
            match key.code {
                KeyCode::Char(c) => {
                    &&& after.active
                    &&& after.filter_content@ == self.filter_content@.push(c)
                    &&& action matches Some(BookmarkMenuAction::Content(content))
                    &&& content@ == after.filter_content@
                },
                KeyCode::Backspace => {
                    &&& after.active
                    &&& after.filter_content@ == if self.filter_content@.len() > 0 {
                        self.filter_content@.drop_last()
                    } else {
                        self.filter_content@
                    }
                    &&& action matches Some(BookmarkMenuAction::Content(content))
                    &&& content@ == after.filter_content@
                },
                KeyCode::Enter => {
                    &&& !after.active
                    &&& after.filter_content == self.filter_content
                    &&& action matches Some(BookmarkMenuAction::Enter)
                },
                KeyCode::Esc => {
                    &&& !after.active
                    &&& after.filter_content == self.filter_content
                    &&& action matches Some(BookmarkMenuAction::Cancel)
                },
                KeyCode::Up => {
                    &&& *after == *self
                    &&& action matches Some(BookmarkMenuAction::Arrow(direction))
                    &&& direction == Direction::Up
                },
                KeyCode::Down => {
                    &&& *after == *self
                    &&& action matches Some(BookmarkMenuAction::Arrow(direction))
                    &&& direction == Direction::Down
                },
                _ => action is None && *after == *self,
            }
        }
    }

    /// Takes a key for the open menu: see `handles`.
    pub fn handle_raw_event(&mut self, key: &KeyEvent) -> (action: Option<BookmarkMenuAction>)
        requires
            old(self).active,
        ensures
            old(self).handles(*key, final(self), action),
    {
        if !key.plain() {
            return None;
        }
        match key.code {
            KeyCode::Char(c) => {
                push_char(&mut self.filter_content, c);
                Some(BookmarkMenuAction::Content(self.filter_content.clone()))
            },
            KeyCode::Backspace => {
                pop_char(&mut self.filter_content);
                Some(BookmarkMenuAction::Content(self.filter_content.clone()))
            },
            KeyCode::Enter => {
                self.active = false;
                Some(BookmarkMenuAction::Enter)
            },
            KeyCode::Esc => {
                self.active = false;
                Some(BookmarkMenuAction::Cancel)
            },
            KeyCode::Up => Some(BookmarkMenuAction::Arrow(Direction::Up)),
            KeyCode::Down => Some(BookmarkMenuAction::Arrow(Direction::Down)),
            _ => None,
        }
    }
}

} // verus!
