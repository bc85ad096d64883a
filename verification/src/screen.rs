//! What the lines and windows of the screen say.

use vstd::prelude::*;

use crate::app::{App, Focus, Preview, Prompt, State};
use crate::cost;
use crate::feed;
use crate::feed::FeedState;
use crate::pane;
use crate::style;
use crate::style::{Span, Tone};
use crate::text;
use crate::update::Outcome;
use crate::wallet::Project;

verus! {

/// A part of the screen.
#[derive(Clone, Copy, Debug, PartialEq, Eq, Structural)]
pub struct Rect {
    pub x: u16,
    pub y: u16,
    pub width: u16,
    pub height: u16,
}

impl Rect {
    /// Whether the far edges are on a screen that counts in sixteen bits.
    pub open spec fn fits(&self) -> bool {
        self.x + self.width <= u16::MAX && self.y + self.height <= u16::MAX
    }
}

/// A box `width` and `height` per cent of `area`, in the middle of it.
pub open spec fn centred_in(area: Rect, width: int, height: int) -> Rect {
    let box_width = area.width * width / 100;
    let box_height = area.height * height / 100;
    Rect {
        x: (area.x + (area.width - box_width) / 2) as u16,
        y: (area.y + (area.height - box_height) / 2) as u16,
        width: box_width as u16,
        height: box_height as u16,
    }
}

/// A box `width` and `height` per cent of `area`, in the middle of it.
pub fn centred(area: Rect, width: u16, height: u16) -> (r: Rect)
    requires
        area.fits(),
        width <= 100,
        height <= 100,
    ensures
        r == centred_in(area, width as int, height as int),
        area.x <= r.x,
        area.y <= r.y,
        r.x + r.width <= area.x + area.width,
        r.y + r.height <= area.y + area.height,
{
    assert(0 <= area.width * width <= 100 * area.width && 0 <= area.height * height <= 100
        * area.height) by (nonlinear_arith)
        requires
            width <= 100,
            height <= 100,
    ;
    let box_width = (area.width as u32 * width as u32 / 100) as u16;
    let box_height = (area.height as u32 * height as u32 / 100) as u16;
    Rect {
        x: area.x + (area.width - box_width) / 2,
        y: area.y + (area.height - box_height) / 2,
        width: box_width,
        height: box_height,
    }
}

/// What the footer says for a prompt.
pub open spec fn prompt_spans(prompt: Prompt) -> Seq<(Seq<char>, Tone)> {
    match prompt {
        Prompt::Confirm(id, _) => seq![
            (" d again to cancel job "@ + id@, Tone::Yellow),
            (" · anything else, or a pause, keeps it"@, Tone::Dim),
        ],
        Prompt::Sent(id) => seq![(" cancelling "@ + id@ + " …"@, Tone::Dim)],
        Prompt::Done(id) => seq![(" cancelled "@ + id@, Tone::Green)],
        Prompt::Failed(said) => seq![(" cancel · "@ + said@, Tone::Red)],
    }
}

/// Two texts, one after the other.
fn joined(first: &str, second: &str) -> (r: String)
    ensures
        r@ == first@ + second@,
{
    let mut r = first.to_string();
    r.append(second);
    r
}

/// A line of one run.
fn alone(text: String, tone: Tone) -> (r: Vec<Span>)
    ensures
        style::spans(r@) == seq![(text@, tone)],
{
    let r: Vec<Span> = vec![Span { text, tone }];
    assert(style::spans(r@) =~= seq![(text@, tone)]);
    r
}

impl Prompt {
    /// What the footer says.
    pub fn line(&self) -> (r: Vec<Span>)
        ensures
            style::spans(r@) == prompt_spans(*self),
    {
        match self {
            Prompt::Confirm(id, _) => {
                let r: Vec<Span> = vec![
                    Span {
                        text: joined(" d again to cancel job ", id.as_str()),
                        tone: Tone::Yellow,
                    },
                    style::span(" · anything else, or a pause, keeps it", Tone::Dim),
                ];
                assert(style::spans(r@) =~= prompt_spans(*self));
                r
            },
            Prompt::Sent(id) => {
                let mut text = joined(" cancelling ", id.as_str());
                text.append(" …");
                alone(text, Tone::Dim)
            },
            Prompt::Done(id) => alone(joined(" cancelled ", id.as_str()), Tone::Green),
            Prompt::Failed(said) => alone(joined(" cancel · ", said.as_str()), Tone::Red),
        }
    }
}

/// What the footer says: what a cancellation has to ask or to report, or the
/// keys of whatever has them.
pub open spec fn footer_spans(s: State) -> Seq<(Seq<char>, Tone)> {
    match s.prompt {
        Some(prompt) => prompt_spans(prompt),
        None => if s.preview is Some {
            seq![(" j/k scroll · ^d/^u page · G follow · p/esc close"@, Tone::Dim)]
        } else {
            seq![
                (
                    " tab focus · j/k move · h/l cols · ^d/^u page · p log · "@ + (if s.focus
                        == Focus::Queue {
                        "dd cancel · "@
                    } else {
                        ""@
                    }) + "m queue "@ + (if s.only_me {
                        "all"@
                    } else {
                        "mine"@
                    }) + " · r refresh · q quit"@,
                    Tone::Dim,
                ),
            ]
        },
    }
}

/// What the update check came to, once it has anything to say.
pub open spec fn note_spans(outcome: Option<Outcome>) -> Seq<(Seq<char>, Tone)> {
    match outcome {
        None => Seq::empty(),
        Some(Outcome::Current) => Seq::empty(),
        Some(Outcome::Installed(version)) => seq![
            ("updated to "@ + version@, Tone::Green),
            (" · restart to use it "@, Tone::Dim),
        ],
        Some(Outcome::Failed(said)) => seq![("update · "@ + said@ + " "@, Tone::Dim)],
    }
}

/// The columns to give the update note, out of a footer `area` wide whose keys
/// take `keys`. A note that does not fit is dropped rather than shortened,
/// because the keys are what you are down here to read.
pub open spec fn note_room(area: int, keys: int, note: int) -> int {
    if note <= pane::less(area, keys) && note <= u16::MAX {
        note
    } else {
        0
    }
}

/// The columns to give the update note.
pub fn note_columns(area: u16, keys: usize, note: usize) -> (r: u16)
    ensures
        r == note_room(area as int, keys as int, note as int),
{
    if note <= (area as usize).saturating_sub(keys) && note <= 65535 {
        note as u16
    } else {
        0
    }
}

/// The columns to give the balances, out of a header `area` wide, for a line
/// `wallet` wide. They are measured out first, and the cost takes whatever is
/// left over.
pub fn wallet_columns(area: u16, wallet: usize) -> (r: u16)
    ensures
        r == pane::lesser(wallet as int, area as int),
{
    if wallet <= area as usize {
        wallet as u16
    } else {
        area
    }
}

/// The cost line to draw, for a line `columns` wide in `room` columns. A
/// right-aligned line that does not fit is truncated from its left, which would
/// leave a fragment of a total sitting against the balances, so one that does
/// not is not drawn at all.
pub fn drawn_cost(line: Vec<Span>, columns: usize, room: u16) -> (r: Vec<Span>)
    ensures
        columns <= room ==> r == line,
        columns > room ==> r@.len() == 0,
{
    if columns <= room as usize {
        line
    } else {
        Vec::new()
    }
}

/// The line, if `room` columns have room for it, and nothing if they have not.
pub open spec fn if_it_fits(line: Seq<(Seq<char>, Tone)>, room: int) -> Seq<(Seq<char>, Tone)> {
    if style::line_width(line) <= room {
        line
    } else {
        Seq::empty()
    }
}

/// What the header says of one project. An overdrawn project is the whole
/// reason to show the line.
pub open spec fn project_spans(project: Project) -> Seq<(Seq<char>, Tone)> {
    seq![
        (" · "@ + project.id@ + " "@, Tone::Dim),
        (
            project.balance.amount@ + " SU"@,
            if project.balance.overdrawn {
                Tone::Red
            } else {
                Tone::Green
            },
        ),
    ]
}

/// What the header says of the projects, in their order.
pub open spec fn projects_spans(projects: Seq<Project>) -> Seq<(Seq<char>, Tone)>
    decreases projects.len(),
{
    if projects.len() == 0 {
        Seq::empty()
    } else {
        projects_spans(projects.drop_last()) + project_spans(projects.last())
    }
}

/// The SU balance of every project you belong to, or how their fetch went.
pub open spec fn wallet_spans(wallet: FeedState<(), Project>) -> Seq<(Seq<char>, Tone)> {
    seq![(" wallet"@, Tone::Dim)] + if wallet.items.len() == 0 {
        seq![(" · "@, Tone::Dim), feed::status_of(wallet, "projects"@)]
    } else {
        projects_spans(wallet.items)
    }
}

/// How one window of the cost line is labelled.
pub open spec fn window_label(days: int) -> Seq<char> {
    " · "@ + text::decimal_of(days as nat) + "d "@
}

/// The windows from the `i`th on that `room` columns have room for, and their
/// amounts, a column to a character.
/// The first that does not fit is dropped whole, and every longer one with it.
pub open spec fn fitting(amounts: Seq<Seq<char>>, i: int, room: int) -> Seq<(Seq<char>, Tone)>
    decreases 3 - i,
{
    if i < 0 || i >= 3 || i >= amounts.len() {
        Seq::empty()
    } else {
        let label = window_label(cost::WINDOWS@[i] as int);
        let need = label.len() + amounts[i].len();
        if need > room {
            Seq::empty()
        } else {
            seq![(label, Tone::Dim), (amounts[i], Tone::Plain)] + fitting(
                amounts,
                i + 1,
                room - need,
            )
        }
    }
}

/// What the totals of the windows are shown as.
pub open spec fn amounts_of(costs: Seq<nat>) -> Seq<Seq<char>> {
    costs.map_values(|total: nat| cost::service_units(total))
}

/// What the recent runs have cost, over as many of the windows as `width` has
/// room for. Nothing at all when not even one fits.
pub open spec fn cost_spans(loading: bool, width: int, amounts: Seq<Seq<char>>) -> Seq<
    (Seq<char>, Tone),
> {
    let windows = fitting(amounts, 0, pane::less(width, 5));
    if loading {
        seq![("cost"@, Tone::Dim), (" · loading"@, Tone::Dim), (" "@, Tone::Plain)]
    } else if windows.len() == 0 {
        Seq::empty()
    } else {
        seq![("cost"@, Tone::Dim)] + windows + seq![(" "@, Tone::Plain)]
    }
}

/// The part of a log of `len` lines that a window of `body` lines shows when
/// it is scrolled `back`: how far back it really is, and the lines from the
/// second up to but not including the third.
pub open spec fn preview_part(len: int, body: int, back: int) -> (int, int, int) {
    let back = pane::lesser(back, pane::less(len, body));
    (back, pane::less(len - back, body), len - back)
}

/// How much of the screen the log window takes, in per cent. Wide, because a
/// log line is long and the window does not wrap them; short of the full
/// screen, because the panes behind it are the context for what it is showing.
pub const PREVIEW_WIDTH: u16 = 90;

/// How much of the screen's height it takes.
pub const PREVIEW_HEIGHT: u16 = 70;

/// Where the log window is.
pub open spec fn preview_area(screen: Rect) -> Rect {
    centred_in(screen, PREVIEW_WIDTH as int, PREVIEW_HEIGHT as int)
}

/// How many lines the log window has room for. Its own borders are not room
/// for lines.
pub open spec fn preview_body(screen: Rect) -> int {
    pane::less(preview_area(screen).height as int, 2)
}

/// The lines the log window shows.
pub open spec fn preview_lines(
    tail: FeedState<Option<String>, String>,
    body: int,
    back: int,
) -> Seq<(Seq<char>, Tone)> {
    match tail.error {
        Some(said) => seq![(said@, Tone::Red)],
        None => if tail.loading {
            seq![("reading…"@, Tone::Dim)]
        } else if tail.items.len() == 0 {
            seq![("empty"@, Tone::Dim)]
        } else {
            let (_, start, end) = preview_part(tail.items.len() as int, body, back);
            tail.items.subrange(start, end).map_values(|line: String| (line@, Tone::Plain))
        },
    }
}

/// What the log window says about which end of the file is on screen.
pub open spec fn preview_footer(back: int) -> (Seq<char>, Tone) {
    if back == 0 {
        (" following "@, Tone::Green)
    } else {
        (
            " "@ + text::decimal_of(back as nat) + " lines back · paused · G to follow "@,
            Tone::Yellow,
        )
    }
}

/// What the log window is called.
pub open spec fn preview_title(preview: Preview) -> Seq<(Seq<char>, Tone)> {
    seq![
        (" "@ + preview.id@ + " · "@, Tone::Plain),
        (preview.path@, Tone::Dim),
        (" "@, Tone::Plain),
    ]
}

/// One frame of the header: the balances, and to the right of them what they
/// have been spent on.
pub struct Header {
    pub wallet: Vec<Span>,
    /// The columns that the balances have.
    pub balances: u16,
    /// Drawn against the right edge.
    pub cost: Vec<Span>,
    /// The columns that the cost has.
    pub costs: u16,
}

/// One frame of the footer: the keys, and to the right of them what the update
/// check came to.
pub struct Footer {
    pub keys: Vec<Span>,
    /// The columns that the keys have.
    pub keys_columns: u16,
    /// Drawn against the right edge.
    pub note: Vec<Span>,
    /// The columns that the note has. It is drawn in them or, where there are
    /// none, not at all.
    pub note_columns: u16,
}

/// The columns of a header `width` wide that the balances have.
pub open spec fn balances_of(s: State, width: int) -> int {
    pane::lesser(style::line_width(wallet_spans(s.wallet)) as int, width)
}

/// What the header says of the cost, in the `room` that the balances leave it.
pub open spec fn cost_shown(s: State, room: int) -> Seq<(Seq<char>, Tone)> {
    if_it_fits(cost_spans(s.recent.feed.loading, room, amounts_of(s.costs)), room)
}

/// The columns of a footer `width` wide that the update note has.
pub open spec fn note_of(s: State, width: int) -> int {
    note_room(
        width,
        style::line_width(footer_spans(s)) as int,
        style::line_width(note_spans(s.update.outcome)) as int,
    )
}

/// One frame of the log window: everything there is to draw of it.
pub struct PreviewFrame {
    pub area: Rect,
    pub title: Vec<Span>,
    /// The lines, one run each.
    pub lines: Vec<Span>,
    pub footer: Span,
}

impl App {
    /// The footer's left: what a cancellation has to ask or to report while it
    /// has anything, and the keys otherwise.
    pub fn footer(&self) -> (r: Vec<Span>)
        ensures
            style::spans(r@) == footer_spans(self@),
    {
        // A cancellation has the row while it has something to ask or report:
        // the keys are always the same, and this is not.
        match &self.prompt {
            Some(prompt) => {
                return prompt.line();
            },
            None => {},
        }
        // An open window has the keys, so it has the row that lists them.
        if self.preview.is_some() {
            return alone(
                " j/k scroll · ^d/^u page · G follow · p/esc close".to_string(),
                Tone::Dim,
            );
        }
        let mut text =
            " tab focus · j/k move · h/l cols · ^d/^u page · p log · ".to_string();
        // Only the queue holds jobs there is still anything to cancel.
        text.append(
            if self.focus == Focus::Queue {
                "dd cancel · "
            } else {
                ""
            },
        );
        text.append("m queue ");
        // What a press would switch to; which scope the queue is on now is in
        // its own title, next to the rows it decides.
        text.append(
            if self.only_me {
                "all"
            } else {
                "mine"
            },
        );
        text.append(" · r refresh · q quit");
        alone(text, Tone::Dim)
    }

    /// What the update check came to, once it has anything to say. A finished
    /// update is a note and not a prompt: the binary on disk is already the
    /// new one, and this session carries on as the old one.
    pub fn update_note(&self) -> (r: Vec<Span>)
        ensures
            style::spans(r@) == note_spans(self@.update.outcome),
    {
        match self.update.outcome() {
            // Nothing yet, or nothing worth a line: being current is the
            // usual case, and saying so every start is noise.
            None => {
                let r: Vec<Span> = Vec::new();
                assert(style::spans(r@) =~= Seq::empty());
                r
            },
            Some(Outcome::Current) => {
                let r: Vec<Span> = Vec::new();
                assert(style::spans(r@) =~= Seq::empty());
                r
            },
            Some(Outcome::Installed(version)) => {
                let r: Vec<Span> = vec![
                    Span { text: joined("updated to ", version.as_str()), tone: Tone::Green },
                    style::span(" · restart to use it ", Tone::Dim),
                ];
                assert(style::spans(r@) =~= note_spans(self@.update.outcome));
                r
            },
            Some(Outcome::Failed(said)) => {
                let mut text = joined("update · ", said.as_str());
                text.append(" ");
                alone(text, Tone::Dim)
            },
        }
    }

    /// The SU balance of every project you belong to, which is the number worth
    /// seeing before you submit anything.
    pub fn wallet_line(&self) -> (r: Vec<Span>)
        ensures
            style::spans(r@) == wallet_spans(self@.wallet),
    {
        let mut line: Vec<Span> = Vec::new();
        line.push(style::span(" wallet", Tone::Dim));
        let ghost label = seq![(" wallet"@, Tone::Dim)];
        assert(style::spans(line@) =~= label);
        if self.wallet.items.len() == 0 {
            line.push(style::span(" · ", Tone::Dim));
            line.push(self.wallet.status("projects"));
            assert(style::spans(line@) =~= wallet_spans(self@.wallet));
            return line;
        }
        let ghost all = self.wallet.items@;
        let mut i: usize = 0;
        assert(label + projects_spans(all.take(0)) =~= label);
        while i < self.wallet.items.len()
            invariant
                i <= self.wallet.items.len(),
                all == self.wallet.items@,
                style::spans(line@) == label + projects_spans(all.take(i as int)),
            decreases self.wallet.items.len() - i,
        {
            let project = &self.wallet.items[i];
            let mut name = joined(" · ", project.id.as_str());
            name.append(" ");
            let tone = if project.balance.overdrawn {
                Tone::Red
            } else {
                Tone::Green
            };
            let ghost before = line@;
            line.push(Span { text: name, tone: Tone::Dim });
            line.push(Span { text: joined(project.balance.amount.as_str(), " SU"), tone });
            proof {
                assert(all.take(i + 1).drop_last() == all.take(i as int));
                assert(style::spans(line@) =~= style::spans(before) + project_spans(
                    all[i as int],
                ));
                assert(label + projects_spans(all.take(i as int)) + project_spans(all[i as int])
                    =~= label + (projects_spans(all.take(i as int)) + project_spans(
                    all[i as int],
                )));
            }
            i += 1;
        }
        assert(all.take(i as int) == all);
        line
    }

    /// What the recent runs have cost, over as many of the windows as `width`
    /// has room for. The balances say what is left; this says how fast it is
    /// going.
    pub fn cost_line(&self, width: usize) -> (r: Vec<Span>)
        ensures
            style::spans(r@) == cost_spans(
                self@.recent.feed.loading,
                width as int,
                amounts_of(self@.costs),
            ),
    {
        let amounts: Vec<String> = vec![
            cost::amount(&self.costs[0]),
            cost::amount(&self.costs[1]),
            cost::amount(&self.costs[2]),
        ];
        let ghost texts = text::views(amounts@);
        assert(texts =~= amounts_of(self@.costs));
        let mut line: Vec<Span> = Vec::new();
        line.push(style::span("cost", Tone::Dim));
        if self.recent.feed.loading {
            // Zeroes before the first fetch would read as a month of free
            // compute.
            line.push(style::span(" · loading", Tone::Dim));
            line.push(style::span(" ", Tone::Plain));
            assert(style::spans(line@) =~= cost_spans(true, width as int, texts));
            return line;
        }
        let ghost label = seq![("cost"@, Tone::Dim)];
        assert(style::spans(line@) =~= label);
        // The label, and one column of margin.
        let mut room: usize = width.saturating_sub(5);
        let ghost windows = fitting(texts, 0, room as int);
        let mut i: usize = 0;
        let mut full = false;
        assert(style::spans(line@) + windows =~= label + windows);
        while !full && i < 3 && i < amounts.len()
            invariant
                i <= 3,
                texts == text::views(amounts@),
                line@.len() >= 1,
                !full ==> style::spans(line@) + fitting(texts, i as int, room as int) == label
                    + windows,
                full ==> style::spans(line@) == label + windows,
            decreases 3 - i + if full {
                0int
            } else {
                1int
            },
        {
            let mut name = " · ".to_string();
            let days = text::decimal(cost::WINDOWS[i] as u64);
            name.append(days.as_str());
            name.append("d ");
            let amount = &amounts[i];
            assert(texts[i as int] == amount@);
            assert(name@ == window_label(cost::WINDOWS@[i as int] as int));
            let name_columns = name.as_str().unicode_len();
            let amount_columns = amount.as_str().unicode_len();
            let ghost need = name@.len() + amount@.len();
            // A window that does not fit is dropped whole, longest first: half
            // a number still reads as a number, and every window left is still
            // labelled with the days it covers.
            if name_columns > room || amount_columns > room - name_columns {
                full = true;
                assert(fitting(texts, i as int, room as int) =~= Seq::empty());
                assert(style::spans(line@) + Seq::empty() =~= style::spans(line@));
            } else {
                let ghost before = line@;
                let ghost rest = fitting(texts, i + 1, room - need);
                room = room - name_columns - amount_columns;
                line.push(Span { text: name, tone: Tone::Dim });
                line.push(Span { text: amount.clone(), tone: Tone::Plain });
                proof {
                    let added = seq![(name@, Tone::Dim), (amount@, Tone::Plain)];
                    assert(style::spans(line@) =~= style::spans(before) + added);
                    assert(style::spans(before) + (added + rest) =~= style::spans(line@) + rest);
                }
                i += 1;
            }
        }
        if !full {
            assert(fitting(texts, i as int, room as int) =~= Seq::empty());
            assert(style::spans(line@) + Seq::empty() =~= style::spans(line@));
        }
        assert(style::spans(line@).len() == line@.len());
        assert((label + windows).len() == 1 + windows.len());
        // Not even one window fits, and a label with no total beside it is not
        // worth the columns it would take from the balances.
        if line.len() == 1 {
            let none: Vec<Span> = Vec::new();
            assert(style::spans(none@) =~= Seq::empty());
            return none;
        }
        // Right-aligned, so the margin that keeps this off the edge goes on the
        // opposite end from the wallet's.
        let ghost before = line@;
        line.push(style::span(" ", Tone::Plain));
        assert(style::spans(line@) =~= style::spans(before) + seq![(" "@, Tone::Plain)]);
        line
    }

    /// Take the header's frame, for a terminal `width` columns wide.
    pub fn draw_header(&self, width: u16) -> (r: Header)
        ensures
            style::spans(r.wallet@) == wallet_spans(self@.wallet),
            r.balances == balances_of(self@, width as int),
            r.costs == width - r.balances,
            style::spans(r.cost@) == cost_shown(self@, r.costs as int),
    {
        let wallet = self.wallet_line();
        // The balance is what you would still want to see on a terminal too
        // narrow for both, so it is measured out first and the cost takes
        // whatever is left over.
        let balances = wallet_columns(width, style::width(&wallet));
        let costs = width - balances;
        let line = self.cost_line(costs as usize);
        let columns = style::width(&line);
        let cost = drawn_cost(line, columns, costs);
        assert(cost@.len() == 0 ==> style::spans(cost@) =~= Seq::empty());
        Header { wallet, balances, cost, costs }
    }

    /// Take the footer's frame, for a terminal `width` columns wide. The note
    /// is dropped rather than shortened when the terminal is narrow, because
    /// the keys are what you are down here to read.
    pub fn draw_footer(&self, width: u16) -> (r: Footer)
        ensures
            style::spans(r.keys@) == footer_spans(self@),
            style::spans(r.note@) == note_spans(self@.update.outcome),
            r.note_columns == note_of(self@, width as int),
            r.keys_columns == width - r.note_columns,
    {
        let keys = self.footer();
        let note = self.update_note();
        let note_columns = note_columns(width, style::width(&keys), style::width(&note));
        Footer { keys, keys_columns: width - note_columns, note, note_columns }
    }

    /// What the queue's title calls it. Only the queue has a scope to name; the
    /// other pane is always yours.
    pub fn queue_name(&self) -> (r: &'static str)
        ensures
            r@ == (if self@.only_me {
                "queue · mine"@
            } else {
                "queue · all"@
            }),
    {
        if self.only_me {
            "queue · mine"
        } else {
            "queue · all"
        }
    }

    /// Take the floating window's frame: the end of the selected job's log,
    /// re-read while it is open so a running job's window keeps up with it.
    pub fn draw_preview(&mut self, screen: Rect) -> (r: Option<PreviewFrame>)
        requires
            screen.fits(),
        ensures
            match old(self)@.preview {
                Some(preview) => {
                    &&& r matches Some(frame)
                    &&& final(self)@ == (State {
                        preview_page: preview_body(screen) as usize,
                        ..old(self)@
                    })
                    &&& frame.area == preview_area(screen)
                    &&& style::spans(frame.title@) == preview_title(preview)
                    &&& style::spans(frame.lines@) == preview_lines(
                        old(self)@.tail,
                        preview_body(screen),
                        preview.back as int,
                    )
                    &&& frame.footer@ == preview_footer(
                        preview_part(
                            old(self)@.tail.items.len() as int,
                            preview_body(screen),
                            preview.back as int,
                        ).0,
                    )
                },
                None => r is None && final(self)@ == old(self)@,
            },
    {
        let preview = match &self.preview {
            Some(preview) => preview,
            None => {
                return None;
            },
        };
        let area = centred(screen, PREVIEW_WIDTH, PREVIEW_HEIGHT);
        // The block's own borders are not room for lines.
        let body = area.height.saturating_sub(2) as usize;
        let len = self.tail.items.len();
        // Stop scrolling with the first line we hold at the top: there is
        // nothing above it to reach.
        let back = pane::smaller(preview.back, len.saturating_sub(body));
        let end = len - back;
        let start = end.saturating_sub(body);
        let lines = match &self.tail.error {
            Some(said) => alone(said.clone(), Tone::Red),
            None => if self.tail.loading {
                alone("reading…".to_string(), Tone::Dim)
            } else if len == 0 {
                // A file Slurm has named but the job has not written to yet.
                alone("empty".to_string(), Tone::Dim)
            } else {
                plain_lines(&self.tail.items, start, end)
            },
        };
        let mut name = joined(" ", preview.id.as_str());
        name.append(" · ");
        let title: Vec<Span> = vec![
            Span { text: name, tone: Tone::Plain },
            style::span(preview.path.as_str(), Tone::Dim),
            style::span(" ", Tone::Plain),
        ];
        assert(style::spans(title@) =~= preview_title(*preview));
        // Which end of the file is on screen. A running job writes to the
        // bottom, so saying when you are *not* there is the useful half.
        let footer = if back == 0 {
            style::span(" following ", Tone::Green)
        } else {
            let count = text::decimal(back as u64);
            let mut text = joined(" ", count.as_str());
            text.append(" lines back · paused · G to follow ");
            Span { text, tone: Tone::Yellow }
        };
        self.preview_page = body;
        Some(PreviewFrame { area, title, lines, footer })
    }
}

/// Lines `start` up to but not including `end`, in no colour.
fn plain_lines(lines: &Vec<String>, start: usize, end: usize) -> (r: Vec<Span>)
    requires
        start <= end <= lines.len(),
    ensures
        style::spans(r@) == lines@.subrange(start as int, end as int).map_values(
            |line: String| (line@, Tone::Plain),
        ),
{
    let ghost part = lines@.subrange(start as int, end as int);
    let mut r: Vec<Span> = Vec::new();
    let mut i: usize = start;
    while i < end
        invariant
            start <= i <= end <= lines.len(),
            part == lines@.subrange(start as int, end as int),
            style::spans(r@) == part.take(i - start).map_values(
                |line: String| (line@, Tone::Plain),
            ),
        decreases end - i,
    {
        let ghost before = r@;
        r.push(style::span(lines[i].as_str(), Tone::Plain));
        proof {
            assert(part[i - start] == lines@[i as int]);
            assert(style::spans(r@) =~= style::spans(before).push(
                (lines@[i as int]@, Tone::Plain),
            ));
            assert(part.take(i + 1 - start) =~= part.take(i - start).push(part[i - start]));
            assert(style::spans(r@) =~= part.take(i + 1 - start).map_values(
                |line: String| (line@, Tone::Plain),
            ));
        }
        i += 1;
    }
    assert(part.take(i - start) =~= part);
    r
}

/// How many columns a line takes, a column to a character.
pub open spec fn line_columns(line: Seq<(Seq<char>, Tone)>) -> nat
    decreases line.len(),
{
    if line.len() == 0 {
        0
    } else {
        line[0].0.len() + line_columns(line.drop_first())
    }
}

/// Whether `short` is how `long` starts.
pub open spec fn starts<A>(long: Seq<A>, short: Seq<A>) -> bool {
    short.len() <= long.len() && long.take(short.len() as int) == short
}

/// A narrower line shows fewer of the same windows: the longest go first, and
/// what is left is what stood at the front.
pub proof fn lemma_the_longest_window_goes_first(
    amounts: Seq<Seq<char>>,
    i: int,
    narrow: int,
    wide: int,
)
    requires
        narrow <= wide,
    ensures
        starts(fitting(amounts, i, wide), fitting(amounts, i, narrow)),
    decreases 3 - i,
{
    let less = fitting(amounts, i, narrow);
    let more = fitting(amounts, i, wide);
    if less.len() > 0 {
        let label = window_label(cost::WINDOWS@[i] as int);
        let need = label.len() + amounts[i].len();
        lemma_the_longest_window_goes_first(amounts, i + 1, narrow - need, wide - need);
        let shown = seq![(label, Tone::Dim), (amounts[i], Tone::Plain)];
        let less_rest = fitting(amounts, i + 1, narrow - need);
        let more_rest = fitting(amounts, i + 1, wide - need);
        assert(less == shown + less_rest);
        assert(more == shown + more_rest);
        assert(more.take(less.len() as int) =~= shown + more_rest.take(less_rest.len() as int));
    } else {
        assert(more.take(0) =~= less);
    }
}

/// The windows shown take no more room than there is.
pub proof fn lemma_windows_fit(amounts: Seq<Seq<char>>, i: int, room: int)
    requires
        room >= 0,
    ensures
        line_columns(fitting(amounts, i, room)) <= room,
    decreases 3 - i,
{
    let windows = fitting(amounts, i, room);
    if windows.len() > 0 {
        let label = window_label(cost::WINDOWS@[i] as int);
        let need = label.len() + amounts[i].len();
        let rest = fitting(amounts, i + 1, room - need);
        lemma_windows_fit(amounts, i + 1, room - need);
        assert(windows == seq![(label, Tone::Dim), (amounts[i], Tone::Plain)] + rest);
        assert(windows.drop_first().drop_first() =~= rest);
        assert(line_columns(windows) == label.len() + line_columns(windows.drop_first()));
        assert(line_columns(windows.drop_first()) == amounts[i].len() + line_columns(
            windows.drop_first().drop_first(),
        ));
    }
}

/// A line in two parts takes what the parts take.
proof fn lemma_columns_add_up(first: Seq<(Seq<char>, Tone)>, second: Seq<(Seq<char>, Tone)>)
    ensures
        line_columns(first + second) == line_columns(first) + line_columns(second),
    decreases first.len(),
{
    let all = first + second;
    if first.len() == 0 {
        assert(all == second);
    } else {
        assert(all.drop_first() == first.drop_first() + second);
        lemma_columns_add_up(first.drop_first(), second);
    }
}

/// Once there are totals to show, the cost line takes no more than its width.
pub proof fn lemma_the_cost_line_fits(width: int, amounts: Seq<Seq<char>>)
    requires
        0 <= width,
    ensures
        line_columns(cost_spans(false, width, amounts)) <= width,
{
    let room = pane::less(width, 5);
    let windows = fitting(amounts, 0, room);
    if windows.len() > 0 {
        let label = seq![("cost"@, Tone::Dim)];
        let margin = seq![(" "@, Tone::Plain)];
        lemma_windows_fit(amounts, 0, room);
        lemma_columns_add_up(label + windows, margin);
        lemma_columns_add_up(label, windows);
        assert("cost"@.len() == 4 && " "@.len() == 1) by {
            reveal_strlit("cost");
            reveal_strlit(" ");
        }
        assert(line_columns(label.drop_first()) == 0);
        assert(line_columns(margin.drop_first()) == 0);
        assert(line_columns(label) == 4);
        assert(line_columns(margin) == 1);
        assert(width > 5) by {
            reveal_strlit(" · ");
            assert(window_label(cost::WINDOWS@[0] as int).len() > 0);
        }
    }
}

/// The header is never cut short of what it shows of the cost, and the balances
/// lose nothing to it: they have all they need, or the whole width.
pub proof fn lemma_the_balances_come_first(s: State, width: int)
    requires
        0 <= width,
    ensures
        0 <= balances_of(s, width) <= width,
        balances_of(s, width) == style::line_width(wallet_spans(s.wallet)) || balances_of(s, width)
            == width,
        style::line_width(cost_shown(s, width - balances_of(s, width))) <= width - balances_of(
            s,
            width,
        ),
{
}

/// The keys lose nothing to the update note: it is shown whole beside all of
/// them, or it has no columns.
pub proof fn lemma_the_note_takes_nothing_from_the_keys(s: State, width: int)
    requires
        0 <= width,
    ensures
        0 <= note_of(s, width) <= width,
        note_of(s, width) > 0 ==> note_of(s, width) == style::line_width(
            note_spans(s.update.outcome),
        ) && style::line_width(footer_spans(s)) + note_of(s, width) <= width,
{
}

/// The log window shows part of the log, no more of it than it has room for,
/// and as much as there is to show. At the live end that is the end of it.
pub proof fn lemma_the_window_shows_a_page(len: int, body: int, back: int)
    requires
        0 <= len,
        0 <= body,
        0 <= back,
    ensures
        ({
            let (kept, start, end) = preview_part(len, body, back);
            &&& 0 <= start <= end <= len
            &&& end - start == pane::lesser(len, body)
            &&& kept <= back
            &&& back == 0 ==> end == len
        }),
{
}

/// A centred box leaves the same margin on both sides, give or take one, and
/// stays inside its area.
pub proof fn lemma_a_centred_box_is_in_the_middle(area: Rect, width: int, height: int)
    requires
        area.fits(),
        0 <= width <= 100,
        0 <= height <= 100,
    ensures
        ({
            let r = centred_in(area, width, height);
            let left = r.x - area.x;
            let right = area.x + area.width - r.x - r.width;
            let above = r.y - area.y;
            let below = area.y + area.height - r.y - r.height;
            &&& 0 <= left <= right <= left + 1
            &&& 0 <= above <= below <= above + 1
        }),
{
    assert(0 <= area.width * width <= 100 * area.width && 0 <= area.height * height <= 100
        * area.height) by (nonlinear_arith)
        requires
            0 <= width <= 100,
            0 <= height <= 100,
    ;
}

/// Whether a text ends like this.
pub open spec fn ends(text: Seq<char>, end: Seq<char>) -> bool {
    end.len() <= text.len() && text.skip(text.len() - end.len()) == end
}

/// A question names the job it is about, in yellow; what is under way and what
/// is done name theirs; and a failure is told in its own words, in red.
pub proof fn lemma_a_prompt_names_its_job(id: String, armed: u64, said: String)
    ensures
        prompt_spans(Prompt::Confirm(id, armed)).len() == 2,
        ends(prompt_spans(Prompt::Confirm(id, armed))[0].0, " job "@ + id@),
        prompt_spans(Prompt::Confirm(id, armed))[0].1 == Tone::Yellow,
        text::begins(prompt_spans(Prompt::Sent(id))[0].0, " cancelling "@ + id@),
        prompt_spans(Prompt::Sent(id))[0].1 == Tone::Dim,
        ends(prompt_spans(Prompt::Done(id))[0].0, "cancelled "@ + id@),
        prompt_spans(Prompt::Done(id))[0].1 == Tone::Green,
        ends(prompt_spans(Prompt::Failed(said))[0].0, said@),
        prompt_spans(Prompt::Failed(said))[0].1 == Tone::Red,
{
    reveal_strlit(" d again to cancel job ");
    reveal_strlit(" job ");
    reveal_strlit(" cancelled ");
    reveal_strlit("cancelled ");
    let asks = " d again to cancel job "@ + id@;
    assert(asks.skip(asks.len() - (" job "@ + id@).len()) =~= " job "@ + id@);
    let sent = " cancelling "@ + id@ + " …"@;
    assert(sent.take((" cancelling "@ + id@).len() as int) =~= " cancelling "@ + id@);
    let done = " cancelled "@ + id@;
    assert(done.skip(done.len() - ("cancelled "@ + id@).len()) =~= "cancelled "@ + id@);
    let failed = " cancel · "@ + said@;
    assert(failed.skip(failed.len() - said@.len()) =~= said@);
}

/// A prompt has the footer to itself, and an open window has it otherwise. With
/// neither it lists the keys, in one run.
pub proof fn lemma_who_has_the_footer(s: State)
    ensures
        s.prompt matches Some(prompt) ==> footer_spans(s) == prompt_spans(prompt),
        s.prompt is None && s.preview is Some ==> footer_spans(s) == seq![
            (" j/k scroll · ^d/^u page · G follow · p/esc close"@, Tone::Dim),
        ],
        s.prompt is None ==> footer_spans(s).len() == 1 && footer_spans(s)[0].1 == Tone::Dim,
{
}

/// The keys name cancelling with the queue in focus and not without it, and say
/// of the scope what it would be changed to.
pub proof fn lemma_the_footer_lists_what_a_press_does(s: State)
    requires
        s.prompt is None,
        s.preview is None,
    ensures
        ({
            let keys = footer_spans(s)[0].0;
            let front = " tab focus · j/k move · h/l cols · ^d/^u page · p log · "@;
            let cancel = if s.focus == Focus::Queue {
                "dd cancel · "@
            } else {
                ""@
            };
            let scope = if s.only_me {
                "m queue all"@
            } else {
                "m queue mine"@
            };
            &&& text::begins(keys, front + cancel + scope)
            &&& ends(keys, " · r refresh · q quit"@)
            &&& keys.len() == front.len() + cancel.len() + scope.len()
                + " · r refresh · q quit"@.len()
        }),
{
    reveal_strlit("m queue ");
    reveal_strlit("all");
    reveal_strlit("mine");
    reveal_strlit("m queue all");
    reveal_strlit("m queue mine");
    let keys = footer_spans(s)[0].0;
    let front = " tab focus · j/k move · h/l cols · ^d/^u page · p log · "@;
    let cancel = if s.focus == Focus::Queue {
        "dd cancel · "@
    } else {
        ""@
    };
    let scope = if s.only_me {
        "m queue all"@
    } else {
        "m queue mine"@
    };
    let last = " · r refresh · q quit"@;
    assert("m queue "@ + "all"@ =~= "m queue all"@);
    assert("m queue "@ + "mine"@ =~= "m queue mine"@);
    let whole = front + cancel + scope + last;
    assert(keys =~= whole);
    assert(keys.take((front + cancel + scope).len() as int) =~= front + cancel + scope);
    assert(keys.skip(keys.len() - last.len()) =~= last);
}

/// Only an update that was installed, or one that failed, is noted: the first
/// by its version, the second by what went wrong.
pub proof fn lemma_what_an_update_is_noted_for(version: String, said: String)
    ensures
        note_spans(None).len() == 0,
        note_spans(Some(Outcome::Current)).len() == 0,
        note_spans(Some(Outcome::Installed(version))).len() == 2,
        ends(note_spans(Some(Outcome::Installed(version)))[0].0, version@),
        note_spans(Some(Outcome::Installed(version)))[0].1 == Tone::Green,
        note_spans(Some(Outcome::Failed(said))).len() == 1,
        ends(note_spans(Some(Outcome::Failed(said)))[0].0, said@ + " "@),
        note_spans(Some(Outcome::Failed(said)))[0].1 == Tone::Dim,
{
    let installed = "updated to "@ + version@;
    assert(installed.skip(installed.len() - version@.len()) =~= version@);
    let failed = "update · "@ + said@ + " "@;
    assert(failed.skip(failed.len() - (said@ + " "@).len()) =~= said@ + " "@);
}

/// The header shows every project in its order: its id, and behind it its
/// balance, which is red when it is overdrawn and green when it is not.
pub proof fn lemma_every_project_is_in_the_header(projects: Seq<Project>, i: int)
    requires
        0 <= i < projects.len(),
    ensures
        ({
            let line = projects_spans(projects);
            let project = projects[i];
            &&& line.len() == 2 * projects.len()
            &&& ends(line[2 * i].0, project.id@ + " "@)
            &&& line[2 * i].1 == Tone::Dim
            &&& text::begins(line[2 * i + 1].0, project.balance.amount@)
            &&& ends(line[2 * i + 1].0, " SU"@)
            &&& line[2 * i + 1].1 == (if project.balance.overdrawn {
                Tone::Red
            } else {
                Tone::Green
            })
        }),
    decreases projects.len(),
{
    let before = projects.drop_last();
    let last = projects.last();
    let line = projects_spans(projects);
    lemma_two_runs_to_a_project(before);
    assert(line == projects_spans(before) + project_spans(last));
    if i < before.len() {
        lemma_every_project_is_in_the_header(before, i);
        assert(before[i] == projects[i]);
        assert(line[2 * i] == projects_spans(before)[2 * i]);
        assert(line[2 * i + 1] == projects_spans(before)[2 * i + 1]);
    } else {
        assert(line[2 * i] == project_spans(last)[0]);
        assert(line[2 * i + 1] == project_spans(last)[1]);
        let name = " · "@ + last.id@ + " "@;
        assert(name.skip(name.len() - (last.id@ + " "@).len()) =~= last.id@ + " "@);
        let amount = last.balance.amount@ + " SU"@;
        assert(amount.take(last.balance.amount@.len() as int) =~= last.balance.amount@);
        assert(amount.skip(amount.len() - " SU"@.len()) =~= " SU"@);
    }
}

/// Two runs to a project.
proof fn lemma_two_runs_to_a_project(projects: Seq<Project>)
    ensures
        projects_spans(projects).len() == 2 * projects.len(),
    decreases projects.len(),
{
    if projects.len() > 0 {
        lemma_two_runs_to_a_project(projects.drop_last());
    }
}

/// The wallet line says how the fetch went until there are projects to show,
/// and shows them from then on, a failed fetch or not.
pub proof fn lemma_the_wallet_line(wallet: FeedState<(), Project>)
    ensures
        wallet_spans(wallet)[0] == (" wallet"@, Tone::Dim),
        wallet.items.len() == 0 ==> wallet_spans(wallet).len() == 3 && wallet_spans(wallet)[2]
            == feed::status_of(wallet, "projects"@),
        wallet.items.len() > 0 ==> wallet_spans(wallet).skip(1) == projects_spans(wallet.items),
{
    if wallet.items.len() > 0 {
        assert(wallet_spans(wallet).skip(1) =~= projects_spans(wallet.items));
    }
}

/// How many columns one window takes of the cost line, a column to a character.
pub open spec fn window_need(amounts: Seq<Seq<char>>, i: int) -> int {
    (window_label(cost::WINDOWS@[i] as int).len() + amounts[i].len()) as int
}

/// Where there is room for every window, every one is shown, the day first,
/// then the week, then the month, each with what it came to.
pub proof fn lemma_every_window_is_shown_that_fits(amounts: Seq<Seq<char>>, room: int)
    requires
        amounts.len() == 3,
    ensures
        window_need(amounts, 0) + window_need(amounts, 1) + window_need(amounts, 2) <= room
            ==> fitting(amounts, 0, room) == seq![
            (" · 1d "@, Tone::Dim),
            (amounts[0], Tone::Plain),
            (" · 7d "@, Tone::Dim),
            (amounts[1], Tone::Plain),
            (" · 30d "@, Tone::Dim),
            (amounts[2], Tone::Plain),
        ],
        window_need(amounts, 0) + window_need(amounts, 1) <= room < window_need(amounts, 0)
            + window_need(amounts, 1) + window_need(amounts, 2) ==> fitting(amounts, 0, room)
            == seq![
            (" · 1d "@, Tone::Dim),
            (amounts[0], Tone::Plain),
            (" · 7d "@, Tone::Dim),
            (amounts[1], Tone::Plain),
        ],
        window_need(amounts, 0) <= room < window_need(amounts, 0) + window_need(amounts, 1)
            ==> fitting(amounts, 0, room) == seq![
            (" · 1d "@, Tone::Dim),
            (amounts[0], Tone::Plain),
        ],
        room < window_need(amounts, 0) ==> fitting(amounts, 0, room).len() == 0,
{
    reveal_strlit(" · ");
    reveal_strlit("d ");
    reveal_strlit(" · 1d ");
    reveal_strlit(" · 7d ");
    reveal_strlit(" · 30d ");
    reveal_with_fuel(text::decimal_of, 3);
    assert(cost::WINDOWS@[0] == 1 && cost::WINDOWS@[1] == 7 && cost::WINDOWS@[2] == 30);
    assert(text::decimal_of(1) =~= seq!['1']);
    assert(text::decimal_of(7) =~= seq!['7']);
    assert(text::decimal_of(30) =~= seq!['3', '0']);
    assert(window_label(1) =~= " · 1d "@);
    assert(window_label(7) =~= " · 7d "@);
    assert(window_label(30) =~= " · 30d "@);
    reveal_with_fuel(fitting, 4);
    let one = window_need(amounts, 0);
    let two = window_need(amounts, 1);
    let three = window_need(amounts, 2);
    assert(fitting(amounts, 3, room - one - two - three) =~= Seq::empty());
    let month = fitting(amounts, 2, room - one - two);
    let week = fitting(amounts, 1, room - one);
    let day = fitting(amounts, 0, room);
    if one + two + three <= room {
        assert(month =~= seq![(" · 30d "@, Tone::Dim), (amounts[2], Tone::Plain)]);
    } else if one + two <= room {
        assert(month =~= Seq::empty());
    }
    if one + two <= room {
        assert(week =~= seq![(" · 7d "@, Tone::Dim), (amounts[1], Tone::Plain)] + month);
    } else if one <= room {
        assert(week =~= Seq::empty());
    }
    if one <= room {
        assert(day =~= seq![(" · 1d "@, Tone::Dim), (amounts[0], Tone::Plain)] + week);
    }
}

/// Before the first fetch the cost line says that it is loading. After it, it
/// has its label in front of the windows and a blank behind them, which take
/// five columns of it, and it is empty when no window fits.
pub proof fn lemma_what_the_cost_line_says(width: int, amounts: Seq<Seq<char>>)
    ensures
        cost_spans(true, width, amounts) == seq![
            ("cost"@, Tone::Dim),
            (" · loading"@, Tone::Dim),
            (" "@, Tone::Plain),
        ],
        ({
            let room = if width < 5 {
                0
            } else {
                width - 5
            };
            let windows = fitting(amounts, 0, room);
            let line = cost_spans(false, width, amounts);
            &&& windows.len() == 0 ==> line.len() == 0
            &&& windows.len() > 0 ==> {
                &&& line.len() == windows.len() + 2
                &&& line[0] == ("cost"@, Tone::Dim)
                &&& line.subrange(1, line.len() - 1) == windows
                &&& line.last() == (" "@, Tone::Plain)
            }
        }),
{
    let room = if width < 5 {
        0
    } else {
        width - 5
    };
    let windows = fitting(amounts, 0, room);
    let line = cost_spans(false, width, amounts);
    if windows.len() > 0 {
        assert(line.subrange(1, line.len() - 1) =~= windows);
    }
}

/// Each window shows what its own total comes to.
pub proof fn lemma_each_window_shows_its_total(costs: Seq<nat>, i: int)
    requires
        0 <= i < costs.len(),
    ensures
        amounts_of(costs).len() == costs.len(),
        amounts_of(costs)[i] == cost::service_units(costs[i]),
{
}

/// A line is shown whole or not at all.
pub proof fn lemma_a_line_is_shown_whole(line: Seq<(Seq<char>, Tone)>, room: int)
    ensures
        style::line_width(line) <= room ==> if_it_fits(line, room) == line,
        style::line_width(line) > room ==> if_it_fits(line, room).len() == 0,
{
}

/// A window on a log that is scrolled back shows the lines that end so many
/// from its end. It goes back no further than the first line, and shows the
/// whole of a log that it has room for.
pub proof fn lemma_the_window_shows_lines_so_far_back(len: int, body: int, back: int)
    requires
        0 <= len,
        0 <= body,
        0 <= back,
    ensures
        back + body <= len ==> preview_part(len, body, back) == (back, len - back - body, len
            - back),
        body <= len < back + body ==> preview_part(len, body, back) == (len - body, 0int, body),
        len < body ==> preview_part(len, body, back) == (0int, 0int, len),
{
}

/// A window that cannot be read says why, one that has not been says so, and one
/// on an empty file says that. Any other shows the lines of the log in their
/// order.
pub proof fn lemma_what_the_window_shows(
    tail: FeedState<Option<String>, String>,
    body: int,
    back: int,
    i: int,
)
    requires
        0 <= body,
        0 <= back,
    ensures
        tail.error matches Some(said) ==> preview_lines(tail, body, back) == seq![
            (said@, Tone::Red),
        ],
        tail.error is None && tail.loading ==> preview_lines(tail, body, back) == seq![
            ("reading…"@, Tone::Dim),
        ],
        tail.error is None && !tail.loading && tail.items.len() == 0 ==> preview_lines(
            tail,
            body,
            back,
        ) == seq![("empty"@, Tone::Dim)],
        tail.error is None && !tail.loading && tail.items.len() > 0 ==> ({
            let lines = preview_lines(tail, body, back);
            let start = preview_part(tail.items.len() as int, body, back).1;
            &&& lines.len() == pane::lesser(tail.items.len() as int, body)
            &&& 0 <= i < lines.len() ==> lines[i] == (tail.items[start + i]@, Tone::Plain)
        }),
{
    lemma_the_window_shows_a_page(tail.items.len() as int, body, back);
}

/// A window at the end of its log is following it, in green; any other says how
/// far back it is, in yellow.
pub proof fn lemma_the_window_says_where_it_is(back: int)
    requires
        0 <= back,
    ensures
        back == 0 ==> preview_footer(back) == (" following "@, Tone::Green),
        back > 0 ==> preview_footer(back).1 == Tone::Yellow && text::begins(
            preview_footer(back).0,
            " "@ + text::decimal_of(back as nat) + " lines back"@,
        ),
{
    if back > 0 {
        reveal_strlit(" lines back");
        reveal_strlit(" lines back · paused · G to follow ");
        let said = preview_footer(back).0;
        let front = " "@ + text::decimal_of(back as nat) + " lines back"@;
        assert(said.take(front.len() as int) =~= front);
    }
}

/// A window is titled with its job and its log.
pub proof fn lemma_the_window_is_titled(preview: Preview)
    ensures
        preview_title(preview).len() == 3,
        text::begins(preview_title(preview)[0].0, " "@ + preview.id@),
        preview_title(preview)[1].0 == preview.path@,
{
    let name = " "@ + preview.id@ + " · "@;
    assert(name.take((" "@ + preview.id@).len() as int) =~= " "@ + preview.id@);
}

/// The window is nine tenths of the screen wide and seven tenths tall, and its
/// borders take two rows of it.
pub proof fn lemma_how_much_the_window_takes(screen: Rect)
    requires
        screen.fits(),
    ensures
        preview_area(screen).width == screen.width * 9 / 10,
        preview_area(screen).height == screen.height * 7 / 10,
        screen.height * 7 / 10 >= 2 ==> preview_body(screen) == screen.height * 7 / 10 - 2,
        screen.height * 7 / 10 < 2 ==> preview_body(screen) == 0,
{
    assert(screen.width * 90 / 100 == screen.width * 9 / 10);
    assert(screen.height * 70 / 100 == screen.height * 7 / 10);
}

/// A note that there is room for has the columns it needs, and the balances have
/// theirs where the terminal is wide enough for them and all of it where it is
/// not.
pub proof fn lemma_what_there_is_room_for(s: State, width: int)
    requires
        0 <= width <= u16::MAX,
    ensures
        ({
            let keys = style::line_width(footer_spans(s));
            let note = style::line_width(note_spans(s.update.outcome));
            let wallet = style::line_width(wallet_spans(s.wallet));
            &&& keys + note <= width ==> note_of(s, width) == note
            &&& keys + note > width ==> note_of(s, width) == 0
            &&& wallet <= width ==> balances_of(s, width) == wallet
            &&& wallet > width ==> balances_of(s, width) == width
        }),
{
}

/// The cost line in the header is the one for the room it has, where that fits.
pub proof fn lemma_the_cost_that_is_shown(s: State, room: int)
    ensures
        ({
            let line = cost_spans(s.recent.feed.loading, room, amounts_of(s.costs));
            &&& style::line_width(line) <= room ==> cost_shown(s, room) == line
            &&& style::line_width(line) > room ==> cost_shown(s, room).len() == 0
        }),
{
}

/// A centred box has as many hundredths of its area as it is asked to.
pub proof fn lemma_how_large_a_centred_box_is(area: Rect, width: int, height: int)
    requires
        area.fits(),
        0 <= width <= 100,
        0 <= height <= 100,
    ensures
        100 * centred_in(area, width, height).width <= area.width * width < 100 * centred_in(
            area,
            width,
            height,
        ).width + 100,
        100 * centred_in(area, width, height).height <= area.height * height < 100 * centred_in(
            area,
            width,
            height,
        ).height + 100,
{
    assert(0 <= area.width * width <= 100 * area.width && 0 <= area.height * height <= 100
        * area.height) by (nonlinear_arith)
        requires
            0 <= width <= 100,
            0 <= height <= 100,
    ;
}

/// The header has the wallet line on the left and what fits of the cost line in
/// the columns that the wallet line leaves; the footer has the keys on the left
/// and the note in its own columns.
pub proof fn lemma_how_header_and_footer_are_divided(
    app: &App,
    width: u16,
    header: Header,
    footer: Footer,
)
    requires
        call_ensures(App::draw_header, (app, width), header),
        call_ensures(App::draw_footer, (app, width), footer),
    ensures
        header.balances + header.costs == width,
        footer.keys_columns + footer.note_columns == width,
        header.balances == width || header.balances == style::line_width(
            style::spans(header.wallet@),
        ),
        style::line_width(style::spans(header.cost@)) <= header.costs,
        style::spans(header.wallet@) == wallet_spans(app@.wallet),
        style::spans(footer.keys@) == footer_spans(app@),
        style::spans(footer.note@) == note_spans(app@.update.outcome),
        footer.note_columns > 0 ==> style::line_width(style::spans(footer.keys@))
            + footer.note_columns <= width,
{
    lemma_the_balances_come_first(app@, width as int);
    lemma_the_note_takes_nothing_from_the_keys(app@, width as int);
}

/// The queue's title says whose jobs it holds.
pub proof fn lemma_the_queues_title_says_whose(app: &App, name: &'static str)
    requires
        call_ensures(App::queue_name, (app,), name),
    ensures
        app@.only_me ==> name@ == "queue · mine"@,
        !app@.only_me ==> name@ == "queue · all"@,
{
}

/// A window is drawn when one is open and not otherwise, and how many lines it
/// has room for is kept for the keys that go by half of them.
pub proof fn lemma_a_window_is_drawn_when_one_is_open(
    app: &mut App,
    screen: Rect,
    frame: Option<PreviewFrame>,
)
    requires
        call_ensures(App::draw_preview, (app, screen), frame),
        screen.fits(),
    ensures
        frame is Some <==> old(app).preview is Some,
        frame is None ==> final(app)@ == old(app)@,
        frame matches Some(drawn) ==> {
            &&& final(app).preview_page == preview_body(screen)
            &&& final(app)@ == (State { preview_page: final(app).preview_page, ..old(app)@ })
            &&& drawn.area == preview_area(screen)
            &&& style::spans(drawn.title@) == preview_title(old(app).preview->0)
            &&& style::spans(drawn.lines@) == preview_lines(
                old(app).tail@,
                preview_body(screen),
                old(app).preview->0.back as int,
            )
        },
{
    assert(final(app)@.preview_page == final(app).preview_page);
    assert(old(app)@.preview == old(app).preview);
    assert(old(app)@.tail == old(app).tail@);
    lemma_how_much_the_window_takes(screen);
}

} // verus!
