//! One list on screen: its feed, and how it is scrolled.

use std::ops::Range;

use vstd::prelude::*;

use crate::feed;
use crate::feed::{Feed, FeedState, Request};
use crate::poller::Poller;
use crate::rows;
use crate::rows::{Column, Rows};
use crate::style;
use crate::style::{Span, Tone};
use crate::text;

verus! {

/// One list: its feed, and how it is scrolled. Both panes keep their own, so
/// moving focus does not lose your place in the other.
///
/// The scroll position is ours rather than the table widget's, because the
/// widget only ever sees one screenful; see [`Pane::window`].
pub struct Pane<Req, T> {
    pub feed: Feed<Req, T>,
    /// Index into `feed.items`, not into what is on screen.
    pub selected: usize,
    /// The first of `feed.items` on screen.
    pub offset: usize,
    /// The first column on screen. A row wider than the terminal is the normal
    /// case here rather than an edge one — there are eleven columns before the
    /// log path — so `h` and `l` walk the table sideways instead of the
    /// columns fighting each other for the width.
    pub column: usize,
    /// Rows visible in this pane's body, measured at draw time for ctrl-d/u.
    pub page: usize,
}

/// A pane as a specification speaks of it.
#[verifier::ext_equal]
pub struct PaneState<Req, T> {
    pub feed: FeedState<Req, T>,
    pub selected: usize,
    pub offset: usize,
    pub column: usize,
    pub page: usize,
}

impl<Req, T> View for Pane<Req, T> {
    type V = PaneState<Req, T>;

    open spec fn view(&self) -> PaneState<Req, T> {
        PaneState {
            feed: self.feed@,
            selected: self.selected,
            offset: self.offset,
            column: self.column,
            page: self.page,
        }
    }
}

/// The smaller of two numbers.
pub open spec fn lesser(a: int, b: int) -> int {
    if a <= b {
        a
    } else {
        b
    }
}

/// The difference of two numbers, or zero where it would be negative.
pub open spec fn less(a: int, b: int) -> int {
    if a <= b {
        0
    } else {
        a - b
    }
}

/// The smaller of two numbers.
pub fn smaller(a: usize, b: usize) -> (r: usize)
    ensures
        r == lesser(a as int, b as int),
{
    if a <= b {
        a
    } else {
        b
    }
}

/// The last row a selection can be on, for a list of `len` rows. An empty list
/// is selected at its start.
pub open spec fn last_row(len: int) -> int {
    less(len, 1)
}

/// The first row to show, so that `selected` is on screen: the first row shown
/// before, moved by just enough. A list that is shorter than it was does not
/// leave the screen half empty.
pub open spec fn scrolled(offset: int, selected: int, page: int, len: int) -> int {
    let down_to = less(selected, page - 1);
    let kept = if offset < down_to {
        down_to
    } else if offset > selected {
        selected
    } else {
        offset
    };
    lesser(kept, less(len, page))
}

/// A pane after it has been scrolled to keep the selection on screen.
pub open spec fn settled<Req, T>(pane: PaneState<Req, T>) -> PaneState<Req, T> {
    let len = pane.feed.items.len() as int;
    if pane.page == 0 || len == 0 {
        pane
    } else {
        let selected = lesser(pane.selected as int, last_row(len));
        PaneState {
            selected: selected as usize,
            offset: scrolled(pane.offset as int, selected, pane.page as int, len) as usize,
            ..pane
        }
    }
}

/// The rows a settled pane shows: from the first, up to but not including the
/// second.
pub open spec fn window_of<Req, T>(pane: PaneState<Req, T>) -> (int, int) {
    let len = pane.feed.items.len() as int;
    if pane.page == 0 || len == 0 {
        (0, 0)
    } else {
        (pane.offset as int, lesser(pane.offset + pane.page, len))
    }
}

/// A pane after the selection moved `by` rows, stopping at either end.
pub open spec fn moved<Req, T>(pane: PaneState<Req, T>, by: int, down: bool) -> PaneState<Req, T> {
    let len = pane.feed.items.len() as int;
    if len == 0 {
        pane
    } else if down {
        PaneState { selected: lesser(pane.selected + by, last_row(len)) as usize, ..pane }
    } else {
        PaneState { selected: less(pane.selected as int, by) as usize, ..pane }
    }
}

/// Half a screen, and never less than a row.
pub open spec fn half_page(page: int) -> int {
    if page / 2 < 1 {
        1
    } else {
        page / 2
    }
}

/// A pane after its table moved one column, stopping at either end.
pub open spec fn sideways<Req, T>(
    pane: PaneState<Req, T>,
    columns: int,
    right: bool,
) -> PaneState<Req, T> {
    if right {
        PaneState { column: lesser(pane.column + 1, less(columns, 1)) as usize, ..pane }
    } else {
        PaneState { column: less(pane.column as int, 1) as usize, ..pane }
    }
}

/// A pane that has read everything that arrived for `request`. The list can
/// shrink out from under the selection.
pub open spec fn updated<Req: Request, T>(pane: PaneState<Req, T>, request: Req) -> PaneState<
    Req,
    T,
> {
    let read = PaneState { feed: feed::updated(pane.feed, request), ..pane };
    if feed::any_for(pane.feed.results, request) {
        PaneState {
            selected: lesser(pane.selected as int, last_row(read.feed.items.len() as int)) as usize,
            ..read
        }
    } else {
        read
    }
}

/// The job and the log of the selected row. Nothing when there is no
/// selection, or when that job writes no log.
pub open spec fn selected_log_of<Req, T: Rows>(pane: PaneState<Req, T>) -> Option<
    (String, String),
> {
    if pane.selected < pane.feed.items.len() {
        let row = pane.feed.items[pane.selected as int];
        if row.file()@ == "-"@ || row.file()@ == ""@ {
            None
        } else {
            Some((row.job(), row.file()))
        }
    } else {
        None
    }
}

impl<Req, T> Pane<Req, T> {
    pub fn new(poller: Poller<Req, Vec<T>>) -> (r: Self)
        ensures
            r@ == (PaneState {
                feed: feed::fresh(poller),
                selected: 0,
                offset: 0,
                column: 0,
                page: 0,
            }),
    {
        Pane { feed: Feed::new(poller), selected: 0, offset: 0, column: 0, page: 0 }
    }

    /// The rows to hand the table this frame, scrolled to keep the selection
    /// on screen.
    ///
    /// The table collects every row it is given before drawing the handful
    /// that fit, so passing it the whole list costs a frame proportional to
    /// the number of jobs rather than to the size of the terminal — at the
    /// tens of thousands `sacct` reports for every user over a month, half a
    /// second of it. Scrolling here and passing only the window keeps a draw
    /// the same price at eighty jobs and at eighty thousand.
    pub fn window(&mut self) -> (r: Range<usize>)
        ensures
            final(self)@ == settled(old(self)@),
            (r.start as int, r.end as int) == window_of(final(self)@),
    {
        let len = self.feed.items.len();
        if self.page == 0 || len == 0 {
            return 0..0;
        }
        self.selected = smaller(self.selected, len - 1);

        // Move by just enough to bring the selection back into view, so the
        // list holds still whenever it can.
        let down_to = self.selected.saturating_sub(self.page - 1);
        let kept = if self.offset < down_to {
            down_to
        } else if self.offset > self.selected {
            self.selected
        } else {
            self.offset
        };
        // A list that just shrank must not leave the window off the end.
        self.offset = smaller(kept, len.saturating_sub(self.page));
        self.offset..smaller(self.offset.saturating_add(self.page), len)
    }

    /// Move the selection `rows` up or down, stopping at either end.
    ///
    /// The clamp is ours to apply: the table widget is only ever shown a
    /// window, so it cannot pull a selection back from past the end the way
    /// it could when it held the whole list.
    pub fn move_selection(&mut self, rows: usize, down: bool)
        ensures
            final(self)@ == moved(old(self)@, rows as int, down),
    {
        let len = self.feed.items.len();
        if len == 0 {
            return ;  // Nothing to select.
        }
        self.selected = if down {
            smaller(self.selected.saturating_add(rows), len - 1)
        } else {
            self.selected.saturating_sub(rows)
        };
    }

    pub fn select_next(&mut self)
        ensures
            final(self)@ == moved(old(self)@, 1, true),
    {
        self.move_selection(1, true);
    }

    pub fn select_previous(&mut self)
        ensures
            final(self)@ == moved(old(self)@, 1, false),
    {
        self.move_selection(1, false);
    }

    /// Move the selection half a screen, the way vim's ctrl-d / ctrl-u do.
    pub fn scroll_half(&mut self, down: bool)
        ensures
            final(self)@ == moved(old(self)@, half_page(old(self).page as int), down),
    {
        let half = if self.page / 2 < 1 {
            1
        } else {
            self.page / 2
        };
        self.move_selection(half, down);
    }
}

impl<Req: Request, T> Pane<Req, T> {
    /// Reports whether anything arrived, so the caller knows to redraw.
    pub fn apply_updates(&mut self, request: Req) -> (r: bool)
        ensures
            r == feed::any_for(old(self)@.feed.results, request),
            final(self)@ == updated(old(self)@, request),
    {
        if !self.feed.apply_updates(&request) {
            return false;
        }
        // The list can shrink out from under the selection.
        self.selected = smaller(self.selected, self.feed.items.len().saturating_sub(1));
        true
    }
}

impl<Req, T: Rows> Pane<Req, T> {
    /// Move the table one column left or right, stopping at either end.
    pub fn scroll_column(&mut self, right: bool)
        ensures
            final(self)@ == sideways(old(self)@, T::layout().len() as int, right),
    {
        let columns = T::columns();
        assert(rows::headings(columns@).len() == columns@.len());
        // Stop with the last column still on screen; scrolling past the end
        // would leave the pane empty with no sign of which way back.
        let last = columns.len().saturating_sub(1);
        self.column = if right {
            smaller(self.column.saturating_add(1), last)
        } else {
            self.column.saturating_sub(1)
        };
    }

    /// The selected row's job id and log path, for `p` to open. `None` when
    /// there is no selection, or when that job writes no log.
    pub fn selected_log(&self) -> (r: Option<(String, String)>)
        ensures
            r == selected_log_of(self@),
    {
        if self.selected >= self.feed.items.len() {
            return None;
        }
        let row = &self.feed.items[self.selected];
        let log = row.log();
        // The dash the column shows for a job Slurm recorded no file for.
        if text::same(log.as_str(), "-") || text::same(log.as_str(), "") {
            None
        } else {
            Some((row.id().clone(), log.clone()))
        }
    }
}

/// Everything from the `first` on, and nothing when there are fewer.
pub open spec fn from_column<A>(all: Seq<A>, first: int) -> Seq<A> {
    if first <= all.len() {
        all.skip(first)
    } else {
        Seq::empty()
    }
}

/// The first column a pane shows. The last column can be reached on its own,
/// so there is always a way to read a long path whole.
pub open spec fn first_column<Req, T: Rows>(pane: PaneState<Req, T>) -> int {
    lesser(pane.column as int, less(T::layout().len() as int, 1))
}

/// The rows on screen, each without the cells scrolled off the left.
pub open spec fn drawn_rows<Req, T: Rows>(pane: PaneState<Req, T>) -> Seq<
    Seq<(Seq<char>, Tone)>,
> {
    let (from, to) = window_of(pane);
    Seq::new(
        (to - from) as nat,
        |i: int| from_column(pane.feed.items[from + i].drawn(), first_column(pane)),
    )
}

/// Rows of cells as a specification speaks of them.
pub open spec fn cells_of(rows: Seq<Vec<Span>>) -> Seq<Seq<(Seq<char>, Tone)>> {
    rows.map_values(|row: Vec<Span>| style::spans(row@))
}

/// What a pane's title says: its name, and how its last fetch went.
pub open spec fn title_of<Req, T>(feed: FeedState<Req, T>, name: Seq<char>) -> Seq<
    (Seq<char>, Tone),
> {
    seq![
        (seq![' '] + name + " · "@, Tone::Plain),
        feed::status_of(feed, "jobs"@),
        (" "@, Tone::Plain),
    ]
}

/// A pane measured for a box of `height` rows: its body is what the two
/// borders and the header row leave.
pub open spec fn measured<Req, T>(pane: PaneState<Req, T>, height: u16) -> PaneState<Req, T> {
    PaneState { page: less(height as int, 3) as usize, ..pane }
}

/// One frame of a pane: everything there is to draw of it.
pub struct Frame {
    pub title: Vec<Span>,
    pub border: Tone,
    /// Whether the selected row is shown reversed.
    pub cursor: bool,
    pub columns: Vec<Column>,
    pub rows: Vec<Vec<Span>>,
    /// The selected row, counted from the first one on screen.
    pub selected: usize,
}

impl<Req, T: Rows> Pane<Req, T> {
    /// Take the pane's frame, for a box `height` rows tall.
    pub fn draw(&mut self, height: u16, name: &str, focused: bool) -> (r: Frame)
        ensures
            final(self)@ == settled(measured(old(self)@, height)),
            style::spans(r.title@) == title_of(old(self)@.feed, name@),
            r.border == (if focused {
                Tone::Cyan
            } else {
                Tone::Dim
            }),
            r.cursor == focused,
            rows::headings(r.columns@) == from_column(T::layout(), first_column(final(self)@)),
            cells_of(r.rows@) == drawn_rows(final(self)@),
            r.selected == final(self)@.selected - window_of(final(self)@).0,
    {
        // Body height less the two borders and the header row.
        self.page = height.saturating_sub(3) as usize;
        let mut name_text = String::new();
        name_text.push(' ');
        name_text.append(name);
        name_text.append(" · ");
        assert(name_text@ == seq![' '] + name@ + " · "@);
        let title: Vec<Span> = vec![
            Span { text: name_text, tone: Tone::Plain },
            self.feed.status("jobs"),
            style::span(" ", Tone::Plain),
        ];
        assert(style::spans(title@) =~= title_of(old(self)@.feed, name@));
        // Only the focused pane shows a cursor, so there is never a question
        // about which one j/k is about to move.
        let border = if focused {
            Tone::Cyan
        } else {
            Tone::Dim
        };
        // Everything from the column `h`/`l` has scrolled to, rightwards.
        let mut all = T::columns();
        assert(rows::headings(all@).len() == all@.len());
        let ghost every = all@;
        let first = smaller(self.column, all.len().saturating_sub(1));
        let columns = all.split_off(first);
        assert(rows::headings(columns@) =~= from_column(rows::headings(every), first as int));
        let window = self.window();
        proof {
            lemma_window_in_list(self@);
        }
        let mut rows: Vec<Vec<Span>> = Vec::new();
        let mut i: usize = window.start;
        let ghost drawn = drawn_rows(self@);
        assert(cells_of(rows@) =~= drawn.take(0));
        while i < window.end
            invariant
                window.start <= i <= window.end <= self.feed.items.len(),
                (window.start as int, window.end as int) == window_of(self@),
                drawn == drawn_rows(self@),
                first == first_column(self@),
                cells_of(rows@) == drawn.take(i - window.start),
            decreases window.end - i,
        {
            let mut cells = self.feed.items[i].cells();
            let ghost whole = cells@;
            assert(style::spans(whole).len() == whole.len());
            let shown = if first <= cells.len() {
                cells.split_off(first)
            } else {
                Vec::new()
            };
            let ghost gone = rows@;
            rows.push(shown);
            proof {
                assert(style::spans(shown@) =~= from_column(style::spans(whole), first as int));
                assert(drawn[i - window.start] == style::spans(shown@));
                assert(cells_of(rows@) =~= cells_of(gone).push(style::spans(shown@)));
                assert(drawn.take(i + 1 - window.start) =~= drawn.take(i - window.start).push(
                    drawn[i - window.start],
                ));
            }
            i += 1;
        }
        assert(drawn.take(i - window.start) =~= drawn);
        // The table is given the window alone, so the selection is renumbered
        // against it and the scrolling it would do itself has nothing left to
        // do.
        let selected = self.selected - window.start;
        Frame { title, border, cursor: focused, columns, rows, selected }
    }
}

/// What a settled pane shows is part of its list.
proof fn lemma_window_in_list<Req, T>(pane: PaneState<Req, T>)
    ensures
        ({
            let (from, to) = window_of(settled(pane));
            &&& 0 <= from <= to <= pane.feed.items.len()
            &&& from <= settled(pane).selected
            &&& window_of(settled(settled(pane))) == (from, to)
            &&& settled(settled(pane)) == settled(pane)
        }),
{
}

/// The selection is always on screen, whatever happened to the list and the
/// terminal since the last frame; what is on screen is part of the list, and
/// fills the pane as far as the list does.
pub proof fn lemma_the_selection_is_on_screen<Req, T>(pane: PaneState<Req, T>)
    requires
        pane.page > 0,
        pane.feed.items.len() > 0,
    ensures
        ({
            let (from, to) = window_of(settled(pane));
            &&& 0 <= from <= settled(pane).selected < to <= pane.feed.items.len()
            &&& to - from == lesser(pane.page as int, pane.feed.items.len() as int)
        }),
{
}

/// A frame costs a screenful of rows, however long the list is.
pub proof fn lemma_a_frame_is_a_screenful<Req, T>(pane: PaneState<Req, T>)
    ensures
        window_of(settled(pane)).1 - window_of(settled(pane)).0 <= pane.page,
{
}

/// The list holds still whenever it can: a selection that is on screen already
/// moves nothing.
pub proof fn lemma_the_list_holds_still<Req, T>(pane: PaneState<Req, T>)
    requires
        pane.offset <= pane.selected < pane.offset + pane.page,
        pane.selected < pane.feed.items.len(),
        pane.offset <= less(pane.feed.items.len() as int, pane.page as int),
    ensures
        settled(pane) == pane,
{
}

/// Settling a pane twice is settling it once.
pub proof fn lemma_settled_stays_settled<Req, T>(pane: PaneState<Req, T>)
    ensures
        settled(settled(pane)) == settled(pane),
{
}

/// The selection never leaves the list, and the list does not change under it.
pub proof fn lemma_moving_stays_in_the_list<Req, T>(
    pane: PaneState<Req, T>,
    by: int,
    down: bool,
)
    requires
        0 <= by,
        pane.selected < pane.feed.items.len(),
    ensures
        moved(pane, by, down).selected < pane.feed.items.len(),
        moved(pane, by, down).feed == pane.feed,
{
}

/// A row that was reached by moving is left again by moving back.
pub proof fn lemma_moving_back<Req, T>(pane: PaneState<Req, T>, by: int)
    requires
        0 <= by,
        pane.selected + by < pane.feed.items.len() <= usize::MAX,
    ensures
        moved(moved(pane, by, true), by, false) == pane,
{
}

/// The first column on screen is always one of the columns.
pub proof fn lemma_columns_stay_in_range<Req, T>(
    pane: PaneState<Req, T>,
    columns: int,
    right: bool,
)
    requires
        0 < columns <= usize::MAX,
        pane.column < columns,
    ensures
        sideways(pane, columns, right).column < columns,
{
}

/// The selection goes down, or up, as many rows as it is asked to, and stops at
/// the end of the list. Nothing else about the pane changes.
pub proof fn lemma_the_selection_goes_so_many_rows<Req, T>(pane: PaneState<Req, T>, by: int)
    requires
        0 <= by,
        pane.selected < pane.feed.items.len() <= usize::MAX,
    ensures
        ({
            let len = pane.feed.items.len();
            let down = moved(pane, by, true);
            let up = moved(pane, by, false);
            &&& pane.selected + by < len ==> down.selected == pane.selected + by
            &&& pane.selected + by >= len ==> down.selected == len - 1
            &&& by <= pane.selected ==> up.selected == pane.selected - by
            &&& by > pane.selected ==> up.selected == 0
            &&& down == (PaneState { selected: down.selected, ..pane })
            &&& up == (PaneState { selected: up.selected, ..pane })
        }),
{
}

/// There is nothing to select in an empty list.
pub proof fn lemma_an_empty_list_stays<Req, T>(pane: PaneState<Req, T>, by: int, down: bool)
    requires
        pane.feed.items.len() == 0,
    ensures
        moved(pane, by, down) == pane,
{
}

/// Half a screen is half its rows, the odd one left out, and a row at least.
pub proof fn lemma_half_a_screen(page: int)
    requires
        0 <= page,
    ensures
        half_page(page) >= 1,
        page >= 2 ==> 2 * half_page(page) <= page <= 2 * half_page(page) + 1,
        page < 2 ==> half_page(page) == 1,
{
}

/// The table goes one column to the side it is asked to, and stops with the
/// first or the last column at the edge. Nothing else about the pane changes.
pub proof fn lemma_the_table_goes_one_column<Req, T>(pane: PaneState<Req, T>, columns: int)
    requires
        0 < columns <= usize::MAX,
        pane.column < columns,
    ensures
        ({
            let right = sideways(pane, columns, true);
            let left = sideways(pane, columns, false);
            &&& pane.column + 1 < columns ==> right.column == pane.column + 1
            &&& pane.column + 1 == columns ==> right.column == pane.column
            &&& pane.column > 0 ==> left.column == pane.column - 1
            &&& pane.column == 0 ==> left.column == 0
            &&& right == (PaneState { column: right.column, ..pane })
            &&& left == (PaneState { column: left.column, ..pane })
        }),
{
}

/// The list is scrolled by just enough: a selection below the screen becomes
/// its last row, and one above it its first, as far as the list goes on. A
/// selection past the end is pulled back to the last row. Nothing else about
/// the pane changes.
pub proof fn lemma_the_list_scrolls_just_enough<Req, T>(pane: PaneState<Req, T>)
    requires
        pane.page > 0,
        0 < pane.feed.items.len() <= usize::MAX,
    ensures
        ({
            let len = pane.feed.items.len();
            let after = settled(pane);
            &&& pane.selected < len ==> after.selected == pane.selected
            &&& pane.selected >= len ==> after.selected == len - 1
            &&& pane.offset + pane.page <= after.selected ==> after.offset + pane.page
                == after.selected + 1
            &&& after.selected < pane.offset && after.selected + pane.page <= len ==> after.offset
                == after.selected
            &&& after == (PaneState { selected: after.selected, offset: after.offset, ..pane })
        }),
{
}

/// A pane with no rows to show, or no room to show any, shows none.
pub proof fn lemma_nothing_to_show<Req, T>(pane: PaneState<Req, T>)
    requires
        pane.page == 0 || pane.feed.items.len() == 0,
    ensures
        settled(pane) == pane,
        window_of(pane) == (0int, 0int),
{
}

/// A refresh leaves the selection where it is, unless the list has become too
/// short for it; then it is on the last row. It never scrolls, and one for
/// something else changes nothing at all but that it has been read.
pub proof fn lemma_a_refresh_keeps_the_place<Req: Request, T>(pane: PaneState<Req, T>, request: Req)
    requires
        feed::updated(pane.feed, request).items.len() <= usize::MAX,
        pane.selected < pane.feed.items.len() || pane.selected == 0,
    ensures
        ({
            let after = updated(pane, request);
            let len = after.feed.items.len();
            &&& after.feed == feed::updated(pane.feed, request)
            &&& pane.selected < len ==> after.selected == pane.selected
            &&& pane.selected >= len ==> after.selected == (if len == 0 {
                0
            } else {
                len - 1
            })
            &&& after.offset == pane.offset
            &&& after.column == pane.column
            &&& after.page == pane.page
        }),
{
    if !feed::any_for(pane.feed.results, request) {
        feed::lemma_stale_results_change_nothing(pane.feed, pane.feed.results, request);
    }
}

/// The rows on screen are the rows of the list from the first one shown, and
/// each shows its cells from the first column shown.
pub proof fn lemma_rows_are_shown_in_order<Req, T: Rows>(pane: PaneState<Req, T>, row: int, cell: int)
    requires
        0 <= row < drawn_rows(settled(pane)).len(),
        pane.feed.items[settled(pane).offset + row].drawn().len() == T::layout().len(),
        pane.column < T::layout().len() <= usize::MAX,
        0 <= cell < T::layout().len() - pane.column,
    ensures
        drawn_rows(settled(pane))[row].len() == T::layout().len() - pane.column,
        drawn_rows(settled(pane))[row][cell] == pane.feed.items[settled(pane).offset
            + row].drawn()[pane.column + cell],
        from_column(T::layout(), first_column(settled(pane)))[cell] == T::layout()[pane.column
            + cell],
{
}

/// As many rows are on screen as there is room for and the list has.
pub proof fn lemma_as_many_rows_as_fit<Req, T: Rows>(pane: PaneState<Req, T>)
    ensures
        drawn_rows(settled(pane)).len() == lesser(
            pane.page as int,
            pane.feed.items.len() as int,
        ),
{
}

/// A column scrolled past the last is the last: there is always one to read.
pub proof fn lemma_the_last_column_stays<Req, T: Rows>(pane: PaneState<Req, T>)
    requires
        T::layout().len() > 0,
    ensures
        0 <= first_column(pane) < T::layout().len(),
        pane.column < T::layout().len() ==> first_column(pane) == pane.column,
        pane.column >= T::layout().len() ==> first_column(pane) == T::layout().len() - 1,
{
}

/// The smaller of two numbers is one of them and no greater than either, and
/// what is left of one when another is taken away is never below zero.
pub proof fn lemma_lesser_and_less(a: int, b: int)
    ensures
        lesser(a, b) == a || lesser(a, b) == b,
        lesser(a, b) <= a && lesser(a, b) <= b,
        a >= b ==> less(a, b) == a - b,
        a < b ==> less(a, b) == 0,
{
}

/// The log to open is the selected row's, and its own job's. There is none
/// without a selection, nor for a job that writes no file.
pub proof fn lemma_the_log_is_the_selected_rows<Req, T: Rows>(pane: PaneState<Req, T>)
    ensures
        pane.selected >= pane.feed.items.len() ==> selected_log_of(pane) is None,
        pane.selected < pane.feed.items.len() ==> ({
            let row = pane.feed.items[pane.selected as int];
            let none = row.file()@.len() == 0 || row.file()@ == seq!['-'];
            &&& none ==> selected_log_of(pane) is None
            &&& !none ==> selected_log_of(pane) == Some((row.job(), row.file()))
        }),
{
    reveal_strlit("-");
    reveal_strlit("");
    assert("-"@ =~= seq!['-']);
    assert(""@ =~= Seq::<char>::empty());
    if pane.selected < pane.feed.items.len() {
        let row = pane.feed.items[pane.selected as int];
        assert(row.file()@.len() == 0 ==> row.file()@ =~= ""@);
    }
}

/// Two borders and a heading take three rows of a pane's box.
pub proof fn lemma_a_box_loses_three_rows<Req, T>(pane: PaneState<Req, T>, height: u16)
    ensures
        height >= 3 ==> measured(pane, height).page == height - 3,
        height < 3 ==> measured(pane, height).page == 0,
        measured(pane, height) == (PaneState { page: measured(pane, height).page, ..pane }),
{
}

/// A title says the name of the pane and then how its last fetch went.
pub proof fn lemma_a_title_names_the_pane<Req, T>(feed: FeedState<Req, T>, name: Seq<char>)
    ensures
        title_of(feed, name).len() == 3,
        title_of(feed, name)[0].0.subrange(1, 1 + name.len() as int) == name,
        title_of(feed, name)[1] == feed::status_of(feed, "jobs"@),
{
    let said = title_of(feed, name)[0].0;
    assert(said == seq![' '] + name + " · "@);
    assert(said.subrange(1, 1 + name.len() as int) =~= name);
}

/// A list that has become too short for what is on screen is pulled down until
/// its last row is the last on screen, or its first row the first.
pub proof fn lemma_a_shorter_list_is_pulled_down<Req, T>(pane: PaneState<Req, T>)
    requires
        pane.page > 0,
        0 < pane.feed.items.len() <= usize::MAX,
        pane.offset + pane.page >= pane.feed.items.len(),
    ensures
        ({
            let len = pane.feed.items.len();
            let after = settled(pane);
            &&& len <= pane.page ==> after.offset == 0
            &&& len > pane.page && after.selected + pane.page >= len ==> after.offset == len
                - pane.page
        }),
        window_of(settled(pane)).0 == settled(pane).offset,
{
}

/// Where a pane is scrolled to is what it holds.
pub proof fn lemma_a_pane_is_what_it_holds<Req, T>(pane: Pane<Req, T>)
    ensures
        pane@.feed == pane.feed@,
        pane@.selected == pane.selected,
        pane@.offset == pane.offset,
        pane@.column == pane.column,
        pane@.page == pane.page,
{
}

/// A frame shows the pane in focus, and only it, with a cursor and a bright
/// border, and the selection where it is among the rows on screen.
pub proof fn lemma_only_the_pane_in_focus_has_a_cursor<Req, T: Rows>(
    pane: &mut Pane<Req, T>,
    height: u16,
    name: &str,
    focused: bool,
    frame: Frame,
)
    requires
        call_ensures(Pane::<Req, T>::draw, (pane, height, name, focused), frame),
        0 < old(pane).feed.items@.len() <= usize::MAX,
        height > 3,
    ensures
        frame.cursor == focused,
        frame.border == (if focused {
            Tone::Cyan
        } else {
            Tone::Dim
        }),
        final(pane).offset + frame.selected == final(pane).selected,
        frame.selected < frame.rows@.len(),
        frame.rows@.len() == lesser(height - 3, old(pane).feed.items@.len() as int),
        style::spans(frame.title@) == title_of(old(pane)@.feed, name@),
        rows::headings(frame.columns@) == from_column(T::layout(), first_column(final(pane)@)),
        cells_of(frame.rows@) == drawn_rows(final(pane)@),
{
    let measured_pane = measured(old(pane)@, height);
    lemma_the_selection_is_on_screen(measured_pane);
    lemma_window_in_list(measured_pane);
    assert(final(pane)@ == settled(measured_pane));
    assert(cells_of(frame.rows@).len() == frame.rows@.len());
    assert(final(pane)@.offset == final(pane).offset);
    assert(final(pane)@.selected == final(pane).selected);
}

} // verus!
