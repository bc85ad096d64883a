//! The screen's state, and what a key, a result or the passing of time does to
//! it.

use vstd::prelude::*;

use crate::cost;
use crate::feed;
use crate::feed::{Feed, FeedState};
use crate::keys;
use crate::keys::{Command, Event, Key, WindowCommand};
use crate::logtail;
use crate::moment::Moment;
use crate::natural::Natural;
use crate::pane;
use crate::pane::{Pane, PaneState};
use crate::rows::Rows;
use crate::sacct;
use crate::sacct::Run;
use crate::scancel::Cancels;
use crate::squeue;
use crate::squeue::Job;
use crate::update::{Check, Outcome};
use crate::wallet;
use crate::wallet::Project;

verus! {

/// How long the first `d` waits for the second, in nanoseconds. Long enough to
/// be a double press, short enough that a `d` you have since forgotten about
/// cannot be answered by one you meant as the first of a pair.
pub const CONFIRM: u64 = 1_000_000_000;

/// An open preview window: which job's log, and how far back through it.
///
/// The path is held rather than looked up again each frame, so a refresh
/// landing while the window is open cannot slide a different job's log under
/// it — the same reason `dd` reads its job id when the question is asked.
pub struct Preview {
    pub id: String,
    pub path: String,
    /// Lines scrolled up from the end. Zero is the live end of the file, which
    /// is where a preview opens and where a running job keeps writing.
    pub back: usize,
}

/// Which pane the movement keys act on. Both stay on screen and both keep
/// polling either way.
#[derive(Clone, Copy, Debug, PartialEq, Eq, Structural)]
pub enum Focus {
    Queue,
    Recent,
}

/// What the footer is saying about a cancellation, in place of the keys.
///
/// A confirmation rather than a key that acts on its own: `d` sits next to the
/// movement keys, and one stray press must not take a job down with it.
pub enum Prompt {
    /// The first `d`, and when it was pressed, in nanoseconds since the start:
    /// the next key, within [`CONFIRM`], decides.
    ///
    /// The job id is read when the prompt is armed rather than when it is
    /// answered, so a queue that refreshes between the two presses cannot slide
    /// a different job under the cursor and have it cancelled instead.
    Confirm(String, u64),
    /// `scancel` asked for, and not yet back.
    Sent(String),
    /// Slurm took it. The job leaves the queue on its own time, so this says
    /// what was asked rather than that the job is gone.
    Done(String),
    /// It did not, and why — the whole reason a result is reported at all.
    Failed(String),
}

/// Everything on screen, and what is on its way there.
pub struct App {
    pub wallet: Feed<(), Project>,
    pub queue: Pane<bool, Job>,
    pub recent: Pane<(), Run>,
    /// What the recent runs cost, over each of [`cost::WINDOWS`]. Totalled when
    /// a fetch lands rather than when the line is drawn: a month of everyone's
    /// jobs is tens of thousands of rows, and holding `j` must not re-add them
    /// all for every frame.
    pub costs: [Natural; 3],
    pub focus: Focus,
    /// Whether the queue asks `squeue` for only the current user's jobs. The
    /// recent pane is always the current user's, whatever this says.
    pub only_me: bool,
    /// The startup update check, which reports into the footer.
    pub update: Check,
    /// Cancellations asked for with `dd`, running in the background.
    pub cancels: Cancels,
    /// What the footer says instead of the keys, when a cancellation has
    /// something to ask or to report.
    pub prompt: Option<Prompt>,
    /// The floating log window, when `p` has opened one.
    pub preview: Option<Preview>,
    /// Lines visible in that window, measured at draw time for ctrl-d/ctrl-u.
    pub preview_page: usize,
    /// The lines behind it, re-read while it is open. One feed rather than one
    /// per window: only ever one is open.
    pub tail: Feed<Option<String>, String>,
    pub should_quit: bool,
}

/// The update check as a specification speaks of it.
#[verifier::ext_equal]
pub struct CheckState {
    pub due: bool,
    pub results: Seq<Outcome>,
    pub outcome: Option<Outcome>,
}

/// The cancellations as a specification speaks of them.
#[verifier::ext_equal]
pub struct CancelsState {
    pub requests: Seq<String>,
    pub results: Seq<(String, Result<(), String>)>,
}

/// The screen as a specification speaks of it.
#[verifier::ext_equal]
pub struct State {
    pub wallet: FeedState<(), Project>,
    pub queue: PaneState<bool, Job>,
    pub recent: PaneState<(), Run>,
    pub costs: Seq<nat>,
    pub focus: Focus,
    pub only_me: bool,
    pub update: CheckState,
    pub cancels: CancelsState,
    pub prompt: Option<Prompt>,
    pub preview: Option<Preview>,
    pub preview_page: usize,
    pub tail: FeedState<Option<String>, String>,
    pub should_quit: bool,
}

impl View for App {
    type V = State;

    open spec fn view(&self) -> State {
        State {
            wallet: self.wallet@,
            queue: self.queue@,
            recent: self.recent@,
            costs: self.costs@.map_values(|total: Natural| total@),
            focus: self.focus,
            only_me: self.only_me,
            update: CheckState {
                due: self.update.due,
                results: self.update.results@,
                outcome: self.update.outcome,
            },
            cancels: CancelsState {
                requests: self.cancels.requests@,
                results: self.cancels.results@,
            },
            prompt: self.prompt,
            preview: self.preview,
            preview_page: self.preview_page,
            tail: self.tail@,
            should_quit: self.should_quit,
        }
    }
}

/// A feed that has asked for its first fetch, and had nothing back.
pub open spec fn opening<Req, T>(interval: u64, initial: Req) -> FeedState<Req, T> {
    FeedState {
        items: Seq::empty(),
        error: None,
        loading: true,
        interval,
        requests: seq![initial],
        results: Seq::empty(),
    }
}

/// A pane at the top of a feed that has asked for its first fetch.
pub open spec fn opening_pane<Req, T>(interval: u64, initial: Req) -> PaneState<Req, T> {
    PaneState { feed: opening(interval, initial), selected: 0, offset: 0, column: 0, page: 0 }
}

/// The screen before anything has arrived: your own jobs, the queue in focus,
/// and every command asked for a first time.
pub open spec fn opened(check_update: bool) -> State {
    State {
        wallet: opening(wallet::INTERVAL, ()),
        queue: opening_pane(squeue::INTERVAL, true),
        recent: opening_pane(sacct::INTERVAL, ()),
        costs: seq![0nat, 0nat, 0nat],
        focus: Focus::Queue,
        only_me: true,
        update: CheckState { due: check_update, results: Seq::empty(), outcome: None },
        cancels: CancelsState { requests: Seq::empty(), results: Seq::empty() },
        prompt: None,
        preview: None,
        preview_page: 0,
        tail: opening(logtail::INTERVAL, None),
        should_quit: false,
    }
}

/// Whether a prompt is a confirmation that can still be answered at `now`, and
/// for which job.
pub open spec fn answerable(prompt: Option<Prompt>, now: u64) -> Option<String> {
    match prompt {
        Some(Prompt::Confirm(id, armed)) => if pane::less(now as int, armed as int) < CONFIRM {
            Some(id)
        } else {
            None
        },
        _ => None,
    }
}

/// A `d` on a screen whose footer said `prompt`: cancel the job it named, or
/// ask about the selected one. Only the queue holds jobs there is anything to
/// cancel of. With it, whether anything changed.
pub open spec fn cancelling(s: State, prompt: Option<Prompt>, now: u64) -> (State, bool) {
    if s.focus != Focus::Queue {
        (s, false)
    } else {
        match answerable(prompt, now) {
            Some(id) => (
                State {
                    cancels: CancelsState { requests: s.cancels.requests.push(id), ..s.cancels },
                    prompt: Some(Prompt::Sent(id)),
                    ..s
                },
                true,
            ),
            None => if s.queue.selected < s.queue.feed.items.len() {
                (
                    State {
                        prompt: Some(
                            Prompt::Confirm(
                                s.queue.feed.items[s.queue.selected as int].id,
                                now,
                            ),
                        ),
                        ..s
                    },
                    true,
                )
            } else {
                (s, false)
            },
        }
    }
}

/// Whether the footer asks a question that it is too late to answer.
pub open spec fn expired(s: State, now: u64) -> bool {
    s.prompt matches Some(Prompt::Confirm(_, armed)) && pane::less(now as int, armed as int)
        >= CONFIRM
}

/// The screen without a question that it is too late to answer.
pub open spec fn after_expiry(s: State, now: u64) -> State {
    if expired(s, now) {
        State { prompt: None, ..s }
    } else {
        s
    }
}

/// What the footer says about a cancellation that came back.
pub open spec fn reported(finished: (String, Result<(), String>)) -> Prompt {
    match finished.1 {
        Ok(_) => Prompt::Done(finished.0),
        Err(said) => Prompt::Failed(said),
    }
}

/// Whether any of the finished cancellations was one Slurm took.
pub open spec fn any_taken(finished: Seq<(String, Result<(), String>)>) -> bool {
    exists|i: int| 0 <= i < finished.len() && (#[trigger] finished[i]).1 is Ok
}

/// The screen after every cancellation that came back has been read: the last
/// one is reported, and the queue is asked for if any of them was taken.
pub open spec fn after_cancels(s: State) -> State {
    let finished = s.cancels.results;
    if finished.len() == 0 {
        s
    } else {
        State {
            cancels: CancelsState { results: Seq::empty(), ..s.cancels },
            prompt: Some(reported(finished.last())),
            queue: if any_taken(finished) {
                PaneState { feed: feed::asked(s.queue.feed, s.only_me), ..s.queue }
            } else {
                s.queue
            },
            ..s
        }
    }
}

/// The screen with the queue switched between the current user's jobs and
/// everyone's. The queue alone, and from the top of it.
pub open spec fn rescoped(s: State) -> State {
    State {
        only_me: !s.only_me,
        queue: PaneState { feed: feed::asked(s.queue.feed, !s.only_me), selected: 0, ..s.queue },
        ..s
    }
}

/// The other pane.
pub open spec fn other(focus: Focus) -> Focus {
    match focus {
        Focus::Queue => Focus::Recent,
        Focus::Recent => Focus::Queue,
    }
}

/// The screen with everything on it asked for again.
pub open spec fn refreshed(s: State) -> State {
    State {
        wallet: feed::asked(s.wallet, ()),
        queue: PaneState { feed: feed::asked(s.queue.feed, s.only_me), ..s.queue },
        recent: PaneState { feed: feed::asked(s.recent.feed, ()), ..s.recent },
        ..s
    }
}

/// The path the open window is reading, which is also the reader's request.
/// Nothing when no window is open, or when the one that is has been scrolled
/// back off the end of the file.
pub open spec fn previewed(s: State) -> Option<String> {
    match s.preview {
        Some(preview) => if preview.back == 0 {
            Some(preview.path)
        } else {
            None
        },
        None => None,
    }
}

/// Whether the window is sitting at the live end of the file.
pub open spec fn is_following(s: State) -> bool {
    s.preview matches Some(preview) && preview.back == 0
}

/// The selected row's job and log, in the pane that has focus.
pub open spec fn focused_log(s: State) -> Option<(String, String)> {
    match s.focus {
        Focus::Queue => pane::selected_log_of(s.queue),
        Focus::Recent => pane::selected_log_of(s.recent),
    }
}

/// The screen with a window open on the selected job's log, at its end and
/// with nothing read yet. With it, whether there was a log to open.
pub open spec fn with_window(s: State) -> (State, bool) {
    match focused_log(s) {
        Some((id, path)) => (
            State {
                preview: Some(Preview { id, path, back: 0 }),
                tail: FeedState {
                    items: Seq::empty(),
                    error: None,
                    loading: true,
                    ..feed::asked(s.tail, Some(path))
                },
                ..s
            },
            true,
        ),
        None => (s, false),
    }
}

/// The screen without a window, and the reader put back to sleep.
pub open spec fn without_window(s: State) -> State {
    State {
        preview: None,
        tail: FeedState { items: Seq::empty(), ..feed::asked(s.tail, None) },
        ..s
    }
}

/// The screen with the window `back` lines up from the end of its log.
pub open spec fn with_back(s: State, back: int) -> State {
    match s.preview {
        Some(preview) => State {
            preview: Some(Preview { back: back as usize, ..preview }),
            ..s
        },
        None => s,
    }
}

/// How far back the open window is scrolled, given what it was asked.
pub open spec fn scrolled_back(back: int, page: int, command: WindowCommand) -> int {
    match command {
        WindowCommand::PageDown => pane::less(back, page),
        WindowCommand::PageUp => pane::lesser(back + page, usize::MAX as int),
        WindowCommand::Down => pane::less(back, 1),
        WindowCommand::Up => pane::lesser(back + 1, usize::MAX as int),
        WindowCommand::Follow => 0,
        _ => back,
    }
}

/// The screen after an open window did what it was asked, before the reader
/// hears of it.
pub open spec fn window_obeyed(s: State, command: WindowCommand) -> State {
    match command {
        WindowCommand::Quit => State { should_quit: true, ..s },
        WindowCommand::Close => without_window(s),
        _ => match s.preview {
            Some(preview) => with_back(
                s,
                scrolled_back(
                    preview.back as int,
                    pane::half_page(s.preview_page as int),
                    command,
                ),
            ),
            None => s,
        },
    }
}

/// The screen after a key an open window answered: stepping off the end pauses
/// the reading, and returning to it starts again with a fetch straight away.
/// With it, whether anything changed.
pub open spec fn in_window(s: State, key: Key) -> (State, bool) {
    let command = keys::window_command_of(key);
    if s.preview is None || command == WindowCommand::Nothing {
        (s, false)
    } else {
        let done = window_obeyed(s, command);
        (State { tail: feed::asked(done.tail, previewed(done)), ..done }, true)
    }
}

/// The screen with the selection of the focused pane moved.
pub open spec fn focus_moved(s: State, half: bool, down: bool) -> State {
    match s.focus {
        Focus::Queue => State {
            queue: pane::moved(
                s.queue,
                if half {
                    pane::half_page(s.queue.page as int)
                } else {
                    1
                },
                down,
            ),
            ..s
        },
        Focus::Recent => State {
            recent: pane::moved(
                s.recent,
                if half {
                    pane::half_page(s.recent.page as int)
                } else {
                    1
                },
                down,
            ),
            ..s
        },
    }
}

/// The screen with the columns of the focused pane moved.
pub open spec fn focus_sideways(s: State, right: bool) -> State {
    match s.focus {
        Focus::Queue => State {
            queue: pane::sideways(s.queue, Job::layout().len() as int, right),
            ..s
        },
        Focus::Recent => State {
            recent: pane::sideways(s.recent, Run::layout().len() as int, right),
            ..s
        },
    }
}

/// The screen after a key that the panes answer, where the footer said
/// `prompt` before it. With it, whether anything changed.
pub open spec fn obeyed(
    s: State,
    command: Command,
    prompt: Option<Prompt>,
    now: u64,
) -> (State, bool) {
    match command {
        Command::Quit => (State { should_quit: true, ..s }, true),
        Command::HalfDown => (focus_moved(s, true, true), true),
        Command::HalfUp => (focus_moved(s, true, false), true),
        Command::Next => (focus_moved(s, false, true), true),
        Command::Previous => (focus_moved(s, false, false), true),
        Command::Right => (focus_sideways(s, true), true),
        Command::Left => (focus_sideways(s, false), true),
        Command::Cancel => cancelling(s, prompt, now),
        Command::Open => with_window(s),
        Command::Focus => (State { focus: other(s.focus), ..s }, true),
        Command::Scope => (rescoped(s), true),
        Command::Refresh => (refreshed(s), true),
        Command::Nothing => (s, false),
    }
}

/// The screen after a key went down at `now`. Every press answers whatever the
/// footer was saying, and an open window has the keys to itself. With it,
/// whether anything changed.
pub open spec fn pressed(s: State, key: Key, now: u64) -> (State, bool) {
    let answered = State { prompt: None, ..s };
    let (after, changed) = if s.preview is Some {
        in_window(answered, key)
    } else {
        obeyed(answered, keys::command_of(key), s.prompt, now)
    };
    (after, changed || s.prompt is Some)
}

/// The screen after something the terminal reported at `now`. With it, whether
/// there is anything to draw again.
pub open spec fn handled(s: State, event: Event, now: u64) -> (State, bool) {
    match event {
        Event::Resize => (s, true),
        Event::Press(key) => pressed(s, key, now),
        Event::Other => (s, false),
    }
}

/// The update check after it has been looked at once.
pub open spec fn after_check(check: CheckState) -> CheckState {
    if check.results.len() == 0 {
        check
    } else {
        CheckState {
            results: check.results.drop_first(),
            outcome: Some(check.results[0]),
            ..check
        }
    }
}

/// What the runs cost over each of the windows.
pub open spec fn costs_of(runs: Seq<Run>, clock: Moment) -> Seq<nat> {
    Seq::new(3, |i: int| cost::total(runs, clock, cost::WINDOWS@[i] as int))
}

/// The screen after the recent jobs that arrived have been read, and totalled
/// if any did.
pub open spec fn after_recent(s: State, clock: Moment) -> State {
    let recent = pane::updated(s.recent, ());
    State {
        recent,
        costs: if feed::any_for(s.recent.feed.results, ()) {
            costs_of(recent.feed.items, clock)
        } else {
            s.costs
        },
        ..s
    }
}

/// The screen after the reader's lines have been read, if the window is in a
/// state to accept them.
pub open spec fn after_tail(s: State) -> State {
    if is_following(s) {
        State { tail: feed::updated(s.tail, previewed(s)), ..s }
    } else {
        s
    }
}

/// Whether lines have arrived that the window is in a state to accept.
pub open spec fn tail_ready(s: State) -> bool {
    is_following(s) && feed::any_for(s.tail.results, previewed(s))
}

/// The screen after everything that has arrived has been read, at `now` and
/// with the wall clock at `clock`.
pub open spec fn advanced(s: State, now: u64, clock: Moment) -> State {
    let checked = State { update: after_check(s.update), ..s };
    let cancelled = after_cancels(after_expiry(checked, now));
    let read = State {
        wallet: feed::updated(cancelled.wallet, ()),
        queue: pane::updated(cancelled.queue, cancelled.only_me),
        ..cancelled
    };
    after_tail(after_recent(read, clock))
}

/// Whether reading everything that has arrived changes what is on screen.
pub open spec fn needs_frame(s: State, now: u64) -> bool {
    ||| s.update.results.len() > 0
    ||| expired(s, now)
    ||| s.cancels.results.len() > 0
    ||| feed::any_for(s.wallet.results, ())
    ||| feed::any_for(s.queue.feed.results, s.only_me)
    ||| feed::any_for(s.recent.feed.results, ())
    ||| tail_ready(s)
}

impl App {
    /// The screen before anything has arrived, with the update check or
    /// without it.
    pub fn new(check_update: bool) -> (r: Self)
        ensures
            r@ == opened(check_update),
    {
        let only_me = true;
        let r = App {
            wallet: Feed::new(wallet::poll()),
            queue: Pane::new(squeue::poll(only_me)),
            recent: Pane::new(sacct::poll()),
            costs: [Natural::of(0), Natural::of(0), Natural::of(0)],
            focus: Focus::Queue,
            only_me,
            update: if check_update {
                Check::start()
            } else {
                Check::idle()
            },
            cancels: Cancels::new(),
            prompt: None,
            preview: None,
            preview_page: 0,
            tail: Feed::new(logtail::poll()),
            should_quit: false,
        };
        assert(r@ =~= opened(check_update));
        r
    }

    /// Arm a cancellation, or carry out the one already armed.
    ///
    /// Only the queue: the other pane is jobs that have already ended, and
    /// `scancel` has nothing to say to those.
    pub fn cancel_selected(&mut self, prompt: Option<Prompt>, now: u64) -> (r: bool)
        ensures
            (final(self)@, r) == cancelling(old(self)@, prompt, now),
    {
        if self.focus != Focus::Queue {
            return false;
        }
        match prompt {
            // The second press, in time: cancel the job the first one named.
            Some(Prompt::Confirm(id, armed)) if now.saturating_sub(armed) < CONFIRM => {
                self.cancels.request(id.clone());
                self.prompt = Some(Prompt::Sent(id));
            },
            // The first press, or one so late the prompt it answers is gone.
            _ => {
                if self.queue.selected >= self.queue.feed.items.len() {
                    return false;  // An empty queue has nothing to ask about.
                }
                let id = self.queue.feed.items[self.queue.selected].id.clone();
                self.prompt = Some(Prompt::Confirm(id, now));
            },
        }
        true
    }

    /// Drop a confirmation nobody answered in time, so the footer stops
    /// offering what a `d` would no longer do.
    pub fn expire_prompt(&mut self, now: u64) -> (r: bool)
        ensures
            r == expired(old(self)@, now),
            final(self)@ == after_expiry(old(self)@, now),
    {
        let late = match &self.prompt {
            Some(Prompt::Confirm(_, armed)) => now.saturating_sub(*armed) >= CONFIRM,
            _ => false,
        };
        if late {
            self.prompt = None;
        }
        late
    }

    /// Take whatever cancellations have come back and report the last of them.
    /// Several at once is a footer's worth of one line, and the one still to be
    /// told about is the one that just landed.
    pub fn apply_cancels(&mut self) -> (r: bool)
        ensures
            r == (old(self)@.cancels.results.len() > 0),
            final(self)@ == after_cancels(old(self)@),
    {
        let mut finished = self.cancels.drain();
        let ghost all = finished@;
        if finished.len() == 0 {
            assert(self@ =~= old(self)@);
            return false;
        }
        let last = finished.pop().unwrap();
        let mut cancelled = last.1.is_ok();
        let mut i: usize = 0;
        while i < finished.len()
            invariant
                i <= finished.len(),
                finished@ == all.drop_last(),
                all.len() > 0,
                cancelled == (all.last().1 is Ok || exists|k: int|
                    0 <= k < i && (#[trigger] all[k]).1 is Ok),
            decreases finished.len() - i,
        {
            assert(finished@[i as int] == all[i as int]);
            if finished[i].1.is_ok() {
                cancelled = true;
                assert(all[i as int].1 is Ok);
            }
            i += 1;
        }
        assert(cancelled == any_taken(all)) by {
            if cancelled {
                if all.last().1 is Ok {
                    assert(all[all.len() - 1].1 is Ok);
                }
            }
            if any_taken(all) {
                let k = choose|k: int| 0 <= k < all.len() && (#[trigger] all[k]).1 is Ok;
                assert(all[k].1 is Ok);
                if k == all.len() - 1 {
                    assert(all.last().1 is Ok);
                }
            }
        }
        self.prompt = Some(
            match last.1 {
                Ok(_) => Prompt::Done(last.0),
                Err(said) => Prompt::Failed(said),
            },
        );
        // The queue is a second out of date at worst, but the pane is the only
        // confirmation that matters, so ask for it now rather than at the next
        // tick.
        if cancelled {
            self.queue.feed.refresh(self.only_me);
        }
        assert(self@ =~= after_cancels(old(self)@));
        true
    }

    /// Switch the queue between the current user's jobs and everyone's.
    ///
    /// The queue alone: the recent pane answers what *you* have been running
    /// and what it cost, so a month of the whole cluster is never what is
    /// wanted there, and the costs beside it are read against your own balance.
    pub fn toggle_scope(&mut self)
        ensures
            final(self)@ == rescoped(old(self)@),
    {
        self.only_me = !self.only_me;
        // The list is about to be replaced wholesale, so start at the top
        // rather than partway down whatever arrives.
        self.queue.selected = 0;
        self.queue.feed.refresh(self.only_me);
    }

    pub fn toggle_focus(&mut self)
        ensures
            final(self)@ == (State { focus: other(old(self)@.focus), ..old(self)@ }),
    {
        self.focus = match self.focus {
            Focus::Queue => Focus::Recent,
            Focus::Recent => Focus::Queue,
        };
    }

    /// Refresh everything on screen; it is all shown together, so it should
    /// agree.
    pub fn refresh(&mut self)
        ensures
            final(self)@ == refreshed(old(self)@),
    {
        self.wallet.refresh(());
        self.queue.feed.refresh(self.only_me);
        self.recent.feed.refresh(());
    }

    /// The path the open window is reading, which is also the reader's
    /// request. `None` leaves the reader idle: no window is open, or the one
    /// that is has been scrolled back off the end of the file.
    pub fn previewing(&self) -> (r: Option<String>)
        ensures
            r == previewed(self@),
    {
        match &self.preview {
            Some(preview) => if preview.back == 0 {
                Some(preview.path.clone())
            } else {
                None
            },
            None => None,
        }
    }

    /// Whether the window is sitting at the live end of the file, which is
    /// the only place new lines can be added without moving what is on screen.
    pub fn following(&self) -> (r: bool)
        ensures
            r == is_following(self@),
    {
        match &self.preview {
            Some(preview) => preview.back == 0,
            None => false,
        }
    }

    /// Take the reader's latest lines, if the window is in a state to accept
    /// them.
    ///
    /// A window scrolled back is reading history: lines arriving at the end
    /// would slide it down by however many the job just wrote, out from under
    /// whoever is reading it. So it keeps what it has until `G` returns it to
    /// the end. [`App::previewing`] idles the reader to match, so this is not
    /// a queue building up behind a closed door.
    pub fn apply_tail(&mut self) -> (r: bool)
        ensures
            r == tail_ready(old(self)@),
            final(self)@ == after_tail(old(self)@),
    {
        if !self.following() {
            return false;
        }
        let request = self.previewing();
        self.tail.apply_updates(&request)
    }

    /// Open a window on the selected job's log.
    ///
    /// Reports whether anything changed, so a `p` on a job with no log leaves
    /// the screen alone rather than flashing an empty window at it.
    pub fn open_preview(&mut self) -> (r: bool)
        ensures
            (final(self)@, r) == with_window(old(self)@),
    {
        let found = match self.focus {
            Focus::Queue => self.queue.selected_log(),
            Focus::Recent => self.recent.selected_log(),
        };
        match found {
            Some((id, path)) => {
                self.preview = Some(Preview { id, path: path.clone(), back: 0 });
                // Nothing read yet: the window says so rather than showing the
                // last job's lines while this one's are on their way.
                self.tail.items.clear();
                self.tail.error = None;
                self.tail.loading = true;
                self.tail.refresh(Some(path));
                assert(self@ =~= with_window(old(self)@).0);
                true
            },
            None => false,
        }
    }

    /// Close the window, and put the reader back to sleep.
    ///
    /// The poller holds its last request until it is given another, so leaving
    /// the path behind would have it re-reading a file nobody is looking at
    /// for the rest of the session.
    pub fn close_preview(&mut self)
        ensures
            final(self)@ == without_window(old(self)@),
    {
        self.preview = None;
        self.tail.items = Vec::new();
        self.tail.refresh(None);
    }

    /// The keys an open window answers. Movement is `j`/`k` and
    /// `ctrl-d`/`ctrl-u`, the same as a pane, so there is one set to know.
    pub fn handle_preview_key(&mut self, key: Key) -> (r: bool)
        ensures
            (final(self)@, r) == in_window(old(self)@, key),
    {
        // Measured at the last draw, so a page is a page of the window that is
        // actually on screen.
        let page = if self.preview_page / 2 < 1 {
            1
        } else {
            self.preview_page / 2
        };
        let back = match &self.preview {
            Some(preview) => preview.back,
            None => {
                return false;
            },
        };
        match keys::window_command(key) {
            // ctrl-c still quits, from in here as much as from outside.
            WindowCommand::Quit => {
                self.should_quit = true;
            },
            WindowCommand::Close => self.close_preview(),
            WindowCommand::PageDown => self.scroll_to(back.saturating_sub(page)),
            WindowCommand::PageUp => self.scroll_to(back.saturating_add(page)),
            WindowCommand::Down => self.scroll_to(back.saturating_sub(1)),
            WindowCommand::Up => self.scroll_to(back.saturating_add(1)),
            // Back to the live end, which is where a running job is writing.
            WindowCommand::Follow => self.scroll_to(0),
            WindowCommand::Nothing => {
                return false;
            },
        }
        // Stepping off the end pauses the reading, and returning to it starts
        // again — with a fetch straight away, so `G` is not a wait.
        let request = self.previewing();
        self.tail.refresh(request);
        true
    }

    /// Put the open window `back` lines up from the end of its log.
    fn scroll_to(&mut self, back: usize)
        ensures
            final(self)@ == with_back(old(self)@, back as int),
    {
        match self.preview.take() {
            Some(preview) => {
                self.preview = Some(Preview { id: preview.id, path: preview.path, back });
            },
            None => {},
        }
    }

    /// Do what a key asks of the panes, where the footer said `prompt` before
    /// it. Reports whether anything changed.
    fn obey(&mut self, command: Command, prompt: Option<Prompt>, now: u64) -> (r: bool)
        ensures
            (final(self)@, r) == obeyed(old(self)@, command, prompt, now),
    {
        match command {
            Command::Quit => {
                self.should_quit = true;
            },
            Command::HalfDown => match self.focus {
                Focus::Queue => self.queue.scroll_half(true),
                Focus::Recent => self.recent.scroll_half(true),
            },
            Command::HalfUp => match self.focus {
                Focus::Queue => self.queue.scroll_half(false),
                Focus::Recent => self.recent.scroll_half(false),
            },
            Command::Next => match self.focus {
                Focus::Queue => self.queue.select_next(),
                Focus::Recent => self.recent.select_next(),
            },
            Command::Previous => match self.focus {
                Focus::Queue => self.queue.select_previous(),
                Focus::Recent => self.recent.select_previous(),
            },
            Command::Right => match self.focus {
                Focus::Queue => self.queue.scroll_column(true),
                Focus::Recent => self.recent.scroll_column(true),
            },
            Command::Left => match self.focus {
                Focus::Queue => self.queue.scroll_column(false),
                Focus::Recent => self.recent.scroll_column(false),
            },
            Command::Cancel => {
                return self.cancel_selected(prompt, now);
            },
            Command::Open => {
                return self.open_preview();
            },
            Command::Focus => self.toggle_focus(),
            Command::Scope => self.toggle_scope(),
            Command::Refresh => self.refresh(),
            Command::Nothing => {
                return false;
            },
        }
        true
    }

    /// Reports whether the event changed what is on screen, so a key we do
    /// nothing with does not cost a frame. `now` is in nanoseconds since the
    /// start.
    pub fn handle_event(&mut self, event: Event, now: u64) -> (r: bool)
        ensures
            (final(self)@, r) == handled(old(self)@, event, now),
    {
        let key = match event {
            // Everything has to be laid out again at the new size.
            Event::Resize => {
                return true;
            },
            Event::Press(key) => key,
            Event::Other => {
                return false;
            },
        };
        // Every press answers whatever the footer was saying: a `d` waiting on
        // its pair is answered by anything else as no, and a result that has
        // been read has had its row.
        let prompt = self.prompt.take();
        let changed = prompt.is_some();
        // An open window is modal: it is one screenful of one file, and the
        // keys that move it are the same ones that move a pane.
        if self.preview.is_some() {
            return self.handle_preview_key(key) || changed;
        }
        // A key we do nothing with still clears the footer, if it had anything
        // on it.
        self.obey(keys::command(key), prompt, now) || changed
    }

    /// Take everything that has arrived, and report whether any of it changed
    /// what is on screen. `now` is in nanoseconds since the start, and `clock`
    /// is what the wall clock says.
    ///
    /// Drained every pass, whether or not there is anything else to draw: a
    /// result left sitting is a pane showing something stale.
    pub fn advance(&mut self, now: u64, clock: Moment) -> (r: bool)
        ensures
            r == needs_frame(old(self)@, now),
            final(self)@ == advanced(old(self)@, now, clock),
    {
        let mut dirty = self.update.apply_update();
        assert(self@ =~= (State { update: after_check(old(self)@.update), ..old(self)@ }));
        if self.expire_prompt(now) {
            dirty = true;
        }
        if self.apply_cancels() {
            dirty = true;
        }
        if self.wallet.apply_updates(&()) {
            dirty = true;
        }
        let only_me = self.only_me;
        if self.queue.apply_updates(only_me) {
            dirty = true;
        }
        if self.recent.apply_updates(()) {
            self.costs = cost::totals(self.recent.feed.items.as_slice(), clock);
            assert(self@.costs =~= costs_of(self.recent.feed.items@, clock));
            dirty = true;
        }
        if self.apply_tail() {
            dirty = true;
        }
        dirty
    }
}

/// A press asks for at most one cancellation, and only as the answer to a
/// question: a plain `d`, in time, with the queue in focus and no window open.
/// What is cancelled then is the job the question named.
pub proof fn lemma_only_an_answer_cancels(s: State, key: Key, now: u64)
    ensures
        pressed(s, key, now).0.cancels.requests == s.cancels.requests || {
            &&& answerable(s.prompt, now) matches Some(id)
            &&& pressed(s, key, now).0.cancels.requests == s.cancels.requests.push(id)
            &&& keys::command_of(key) == Command::Cancel
            &&& s.focus == Focus::Queue
            &&& s.preview is None
        },
{
}

/// One stray press never takes a job down: without a question to answer, no
/// key cancels anything.
pub proof fn lemma_one_press_only_asks(s: State, key: Key, now: u64)
    requires
        !(s.prompt matches Some(Prompt::Confirm(_, _))),
    ensures
        pressed(s, key, now).0.cancels == s.cancels,
{
}

/// Pressing `d` twice in time cancels the selected job, once.
pub proof fn lemma_two_presses_cancel(s: State, key: Key, first: u64, second: u64)
    requires
        keys::command_of(key) == Command::Cancel,
        s.focus == Focus::Queue,
        s.preview is None,
        answerable(s.prompt, first) is None,
        s.queue.selected < s.queue.feed.items.len(),
        first <= second,
        second - first < CONFIRM,
    ensures
        pressed(pressed(s, key, first).0, key, second).0.cancels.requests
            == s.cancels.requests.push(s.queue.feed.items[s.queue.selected as int].id),
{
}

/// The job cancelled is the one asked about, whatever the queue has become
/// between the two presses.
pub proof fn lemma_the_named_job_is_cancelled(
    s: State,
    queue: PaneState<bool, Job>,
    key: Key,
    id: String,
    armed: u64,
    now: u64,
)
    requires
        keys::command_of(key) == Command::Cancel,
        s.focus == Focus::Queue,
        s.preview is None,
        s.prompt == Some(Prompt::Confirm(id, armed)),
        armed <= now,
        now - armed < CONFIRM,
    ensures
        pressed(State { queue, ..s }, key, now).0.cancels.requests == s.cancels.requests.push(id),
        pressed(State { queue, ..s }, key, now).0.prompt == Some(Prompt::Sent(id)),
{
}

/// Any other key is an answer of no: the question is gone, nothing has been
/// cancelled, and the footer has to be drawn again.
pub proof fn lemma_anything_else_answers_no(s: State, key: Key, now: u64)
    requires
        s.prompt is Some,
        s.preview is Some || keys::command_of(key) != Command::Cancel,
    ensures
        pressed(s, key, now).0.prompt is None,
        pressed(s, key, now).0.cancels == s.cancels,
        pressed(s, key, now).1,
{
}

/// A `d` that comes too late is the first of its own pair.
pub proof fn lemma_a_late_press_asks_again(s: State, key: Key, id: String, armed: u64, now: u64)
    requires
        keys::command_of(key) == Command::Cancel,
        s.focus == Focus::Queue,
        s.preview is None,
        s.prompt == Some(Prompt::Confirm(id, armed)),
        armed + CONFIRM <= now,
        s.queue.selected < s.queue.feed.items.len(),
    ensures
        pressed(s, key, now).0.cancels == s.cancels,
        pressed(s, key, now).0.prompt == Some(
            Prompt::Confirm(s.queue.feed.items[s.queue.selected as int].id, now),
        ),
{
}

/// No question is left standing once it is too late to answer it.
pub proof fn lemma_questions_expire(s: State, now: u64, clock: Moment)
    ensures
        !expired(advanced(s, now, clock), now),
{
}

/// A result is not a question, so it stays until it is read: time alone does
/// not take it away.
pub proof fn lemma_results_do_not_expire(s: State, now: u64, clock: Moment)
    requires
        !(s.prompt matches Some(Prompt::Confirm(_, _))),
        s.cancels.results.len() == 0,
    ensures
        advanced(s, now, clock).prompt == s.prompt,
{
}

/// An open window has the keys to itself: no key reaches the panes, the
/// header or the queue's scope through it, and none cancels anything.
pub proof fn lemma_an_open_window_is_modal(s: State, key: Key, now: u64)
    requires
        s.preview is Some,
    ensures
        ({
            let after = pressed(s, key, now).0;
            &&& after.queue == s.queue
            &&& after.recent == s.recent
            &&& after.wallet == s.wallet
            &&& after.cancels == s.cancels
            &&& after.focus == s.focus
            &&& after.only_me == s.only_me
        }),
{
}

/// A window stays on the log it was opened on until it is closed.
pub proof fn lemma_a_window_keeps_its_log(s: State, key: Key, now: u64)
    requires
        s.preview is Some,
        pressed(s, key, now).0.preview is Some,
    ensures
        pressed(s, key, now).0.preview->0.id == s.preview->0.id,
        pressed(s, key, now).0.preview->0.path == s.preview->0.path,
{
}

/// A refresh landing while the window is open cannot slide a different job's
/// log under it: whatever arrives, the window is on the log it was on, and as
/// far back through it.
pub proof fn lemma_a_refresh_leaves_the_window(s: State, now: u64, clock: Moment)
    ensures
        advanced(s, now, clock).preview == s.preview,
{
}

/// The reader is told of every change of what the window reads: after a press
/// that changed it, the last thing asked of the reader is what the window now
/// reads.
pub proof fn lemma_the_reader_follows_the_window(s: State, key: Key, now: u64)
    requires
        previewed(pressed(s, key, now).0) != previewed(s),
    ensures
        ({
            let after = pressed(s, key, now).0;
            after.tail.requests.len() > s.tail.requests.len() && after.tail.requests.last()
                == previewed(after)
        }),
{
}

/// Only a window at the live end of its log is read for.
pub proof fn lemma_reading_is_following(s: State)
    ensures
        is_following(s) <==> previewed(s) is Some,
{
}

/// A window scrolled back keeps what it has: whatever the job writes, not one
/// of its lines moves.
pub proof fn lemma_scrolling_back_pauses(s: State, now: u64, clock: Moment)
    requires
        s.preview matches Some(preview) && preview.back > 0,
    ensures
        advanced(s, now, clock).tail == s.tail,
{
}

/// `m` is the queue's key alone: the recent pane keeps its rows and your place
/// in them, and nothing else changes either.
pub proof fn lemma_the_scope_is_the_queues_alone(s: State)
    ensures
        ({
            let after = rescoped(s);
            &&& after.only_me == !s.only_me
            &&& after.queue.selected == 0
            &&& after.queue.feed.requests.last() == after.only_me
            &&& after.queue.feed.items == s.queue.feed.items
            &&& after == (State { only_me: after.only_me, queue: after.queue, ..s })
        }),
{
}

/// One press refreshes everything on screen, and changes nothing else: both
/// panes and the balances are asked for, each the way it is shown.
pub proof fn lemma_one_press_refreshes_everything(s: State, key: Key, now: u64)
    requires
        keys::command_of(key) == Command::Refresh,
        s.preview is None,
    ensures
        ({
            let after = pressed(s, key, now).0;
            &&& after.wallet == feed::asked(s.wallet, ())
            &&& after.queue.feed == feed::asked(s.queue.feed, s.only_me)
            &&& after.recent.feed == feed::asked(s.recent.feed, ())
            &&& after.tail == s.tail
            &&& after.cancels == s.cancels
        }),
{
}

/// The keys move the pane that has the focus, and the other one keeps its rows,
/// its selection and its columns. Only a refresh asks anything of both, and
/// only the scope's key asks the queue from elsewhere.
pub proof fn lemma_keys_move_the_focused_pane_alone(s: State, key: Key, now: u64)
    requires
        keys::command_of(key) != Command::Refresh,
    ensures
        s.focus == Focus::Queue ==> pressed(s, key, now).0.recent == s.recent,
        s.focus == Focus::Recent && keys::command_of(key) != Command::Scope ==> pressed(
            s,
            key,
            now,
        ).0.queue == s.queue,
{
}

/// Switching the focus twice is not switching it, and neither pane moves. All
/// that is gone is what the footer said before it.
pub proof fn lemma_focus_comes_back(s: State, key: Key, first: u64, second: u64)
    requires
        keys::command_of(key) == Command::Focus,
        s.preview is None,
    ensures
        pressed(s, key, first).0 == (State { focus: other(s.focus), prompt: None, ..s }),
        pressed(pressed(s, key, first).0, key, second).0 == (State { prompt: None, ..s }),
{
}

/// Only a change earns a frame: an event that reports no change has made none.
pub proof fn lemma_no_frame_without_a_change(s: State, event: Event, now: u64)
    requires
        !handled(s, event, now).1,
    ensures
        handled(s, event, now).0 == s,
{
}

/// Reading what has arrived earns a frame unless there was nothing to show:
/// otherwise all that changes is that what was read is no longer waiting.
pub proof fn lemma_no_frame_without_news(s: State, now: u64, clock: Moment)
    requires
        !needs_frame(s, now),
    ensures
        advanced(s, now, clock) == (State {
            wallet: FeedState { results: Seq::empty(), ..s.wallet },
            queue: PaneState {
                feed: FeedState { results: Seq::empty(), ..s.queue.feed },
                ..s.queue
            },
            recent: PaneState {
                feed: FeedState { results: Seq::empty(), ..s.recent.feed },
                ..s.recent
            },
            tail: FeedState {
                results: if is_following(s) {
                    Seq::empty()
                } else {
                    s.tail.results
                },
                ..s.tail
            },
            ..s
        }),
{
    feed::lemma_stale_results_change_nothing(s.wallet, s.wallet.results, ());
    feed::lemma_stale_results_change_nothing(s.queue.feed, s.queue.feed.results, s.only_me);
    feed::lemma_stale_results_change_nothing(s.recent.feed, s.recent.feed.results, ());
    if is_following(s) {
        feed::lemma_stale_results_change_nothing(s.tail, s.tail.results, previewed(s));
    }
}

/// A queue fetched under the scope before the last switch never reaches the
/// screen.
pub proof fn lemma_a_stale_queue_is_dropped(s: State, now: u64, clock: Moment)
    requires
        !feed::any_for(s.queue.feed.results, s.only_me),
    ensures
        advanced(s, now, clock).queue.feed.items == s.queue.feed.items,
{
    feed::lemma_stale_results_change_nothing(s.queue.feed, s.queue.feed.results, s.only_me);
    let asked = feed::asked(s.queue.feed, s.only_me);
    feed::lemma_stale_results_change_nothing(asked, s.queue.feed.results, s.only_me);
}

/// With no window open, the key for the next row takes the selection of the
/// pane in focus one row down, and the key for the one before takes it one row
/// up, as far as the list goes. Neither does anything else.
pub proof fn lemma_next_is_down_and_previous_is_up(s: State, key: Key, now: u64)
    requires
        s.preview is None,
        s.queue.selected < s.queue.feed.items.len() <= usize::MAX,
        s.recent.selected < s.recent.feed.items.len() <= usize::MAX,
    ensures
        ({
            let after = pressed(s, key, now).0;
            let at = focused_row(s);
            let rows = focused_rows(s);
            let row = focused_row(after);
            &&& keys::command_of(key) == Command::Next && at + 1 < rows ==> row == at + 1
            &&& keys::command_of(key) == Command::Next && at + 1 == rows ==> row == at
            &&& keys::command_of(key) == Command::Previous && at > 0 ==> row == at - 1
            &&& keys::command_of(key) == Command::Previous && at == 0 ==> row == at
            &&& keys::command_of(key) == Command::Next || keys::command_of(key)
                == Command::Previous ==> only_the_row_moved(s, after)
        }),
{
}

/// Half a screen down is half the rows the pane in focus has on screen, and
/// half a screen up is as many back, as far as the list goes.
pub proof fn lemma_half_a_screen_down_and_up(s: State, key: Key, now: u64)
    requires
        s.preview is None,
        s.queue.selected < s.queue.feed.items.len() <= usize::MAX,
        s.recent.selected < s.recent.feed.items.len() <= usize::MAX,
    ensures
        ({
            let after = pressed(s, key, now).0;
            let at = focused_row(s);
            let rows = focused_rows(s);
            let row = focused_row(after);
            let half = if focused_page(s) < 2 {
                1
            } else {
                focused_page(s) / 2
            };
            let command = keys::command_of(key);
            &&& command == Command::HalfDown && at + half < rows ==> row == at + half
            &&& command == Command::HalfDown && at + half >= rows ==> row == rows - 1
            &&& command == Command::HalfUp && at >= half ==> row == at - half
            &&& command == Command::HalfUp && at < half ==> row == 0
            &&& command == Command::HalfDown || command == Command::HalfUp ==> only_the_row_moved(
                s,
                after,
            )
        }),
{
}

/// The selected row of the pane in focus.
pub open spec fn focused_row(s: State) -> int {
    if s.focus == Focus::Queue {
        s.queue.selected as int
    } else {
        s.recent.selected as int
    }
}

/// How many rows the pane in focus has.
pub open spec fn focused_rows(s: State) -> int {
    if s.focus == Focus::Queue {
        s.queue.feed.items.len() as int
    } else {
        s.recent.feed.items.len() as int
    }
}

/// How many rows of the pane in focus are on screen.
pub open spec fn focused_page(s: State) -> int {
    if s.focus == Focus::Queue {
        s.queue.page as int
    } else {
        s.recent.page as int
    }
}

/// The first column on screen of the pane in focus.
pub open spec fn focused_column(s: State) -> int {
    if s.focus == Focus::Queue {
        s.queue.column as int
    } else {
        s.recent.column as int
    }
}

/// Whether all that is different is the selection of the pane in focus, and
/// that the footer has been answered.
pub open spec fn only_the_row_moved(s: State, after: State) -> bool {
    after == (State {
        queue: PaneState { selected: after.queue.selected, ..s.queue },
        recent: PaneState { selected: after.recent.selected, ..s.recent },
        prompt: None,
        ..s
    }) && (s.focus == Focus::Queue ==> after.recent == s.recent) && (s.focus == Focus::Recent
        ==> after.queue == s.queue)
}

/// The keys for the sides move the columns of the pane in focus by one, as far
/// as its twelve columns go, and leave its rows alone.
pub proof fn lemma_the_sides_move_the_columns(s: State, key: Key, now: u64)
    requires
        s.preview is None,
        s.queue.column < 12,
        s.recent.column < 12,
    ensures
        ({
            let after = pressed(s, key, now).0;
            let at = focused_column(s);
            let column = focused_column(after);
            let command = keys::command_of(key);
            &&& command == Command::Right && at < 11 ==> column == at + 1
            &&& command == Command::Right && at == 11 ==> column == at
            &&& command == Command::Left && at > 0 ==> column == at - 1
            &&& command == Command::Left && at == 0 ==> column == at
            &&& command == Command::Right || command == Command::Left ==> after == (State {
                queue: PaneState { column: after.queue.column, ..s.queue },
                recent: PaneState { column: after.recent.column, ..s.recent },
                prompt: None,
                ..s
            })
        }),
{
}

/// The focus is on the other pane after the key that changes it, and on the
/// same one after any other.
pub proof fn lemma_only_its_key_changes_the_focus(s: State, key: Key, now: u64)
    ensures
        s.preview is None && keys::command_of(key) == Command::Focus ==> pressed(s, key, now).0.focus
            != s.focus,
        s.preview is Some || keys::command_of(key) != Command::Focus ==> pressed(s, key, now).0.focus
            == s.focus,
{
}

/// Only a key that quits ends the program, and such a key always does.
pub proof fn lemma_only_quitting_quits(s: State, key: Key, now: u64)
    ensures
        pressed(s, key, now).0.should_quit <==> s.should_quit || (s.preview is None
            && keys::command_of(key) == Command::Quit) || (s.preview is Some
            && keys::window_command_of(key) == WindowCommand::Quit),
{
}

/// The key for the scope asks for everyone's jobs where it was the current
/// user's, and for the current user's where it was everyone's, and starts at
/// the top of them. No other key changes whose jobs are asked for.
pub proof fn lemma_the_scope_key_switches(s: State, key: Key, now: u64)
    ensures
        ({
            let after = pressed(s, key, now).0;
            let switched = s.preview is None && keys::command_of(key) == Command::Scope;
            &&& switched ==> after.only_me == !s.only_me && after.queue.feed.requests
                == s.queue.feed.requests.push(!s.only_me) && after.queue.selected == 0
                && after.queue.feed.items == s.queue.feed.items && after.recent == s.recent
                && after.wallet == s.wallet
            &&& !switched ==> after.only_me == s.only_me
        }),
{
}

/// A key that asks for the log of a job opens a window on the log of the
/// selected row of the pane in focus, at its end, with nothing read yet, and
/// has it read. The panes stay as they are.
pub proof fn lemma_the_selected_jobs_log_is_opened(s: State, key: Key, now: u64)
    requires
        s.preview is None,
        keys::command_of(key) == Command::Open,
        focused_row(s) < focused_rows(s),
    ensures
        ({
            let (after, changed) = pressed(s, key, now);
            let (id, path) = if s.focus == Focus::Queue {
                (
                    s.queue.feed.items[s.queue.selected as int].id,
                    s.queue.feed.items[s.queue.selected as int].log,
                )
            } else {
                (
                    s.recent.feed.items[s.recent.selected as int].id,
                    s.recent.feed.items[s.recent.selected as int].log,
                )
            };
            let none = path@.len() == 0 || path@ == seq!['-'];
            &&& none ==> after == (State { prompt: None, ..s }) && changed == (s.prompt is Some)
            &&& !none ==> {
                &&& changed
                &&& after.preview == Some(Preview { id, path, back: 0 })
                &&& after.tail.items.len() == 0 && after.tail.loading && after.tail.error is None
                &&& after.tail.requests == s.tail.requests.push(Some(path))
                &&& after == (State { preview: after.preview, tail: after.tail, prompt: None, ..s })
            }
        }),
{
    pane::lemma_the_log_is_the_selected_rows(s.queue);
    pane::lemma_the_log_is_the_selected_rows(s.recent);
}

/// Only that key opens a window, and not one on a job that is not selected.
pub proof fn lemma_only_its_key_opens_a_window(s: State, key: Key, now: u64)
    requires
        s.preview is None,
        keys::command_of(key) != Command::Open || focused_row(s) >= focused_rows(s),
    ensures
        pressed(s, key, now).0.preview is None,
        pressed(s, key, now).0.tail == s.tail,
{
    pane::lemma_the_log_is_the_selected_rows(s.queue);
    pane::lemma_the_log_is_the_selected_rows(s.recent);
}

/// In an open window, down is towards the end of the log and up away from it: a
/// line at a time, or half the window's lines. `G` goes to the end at once.
pub proof fn lemma_the_window_is_scrolled(s: State, key: Key, now: u64)
    requires
        s.preview is Some,
    ensures
        ({
            let after = pressed(s, key, now).0;
            let command = keys::window_command_of(key);
            let back = s.preview->0.back as int;
            let half = if s.preview_page < 2 {
                1
            } else {
                s.preview_page / 2
            };
            let lines: int = if command == WindowCommand::PageDown || command
                == WindowCommand::PageUp {
                half as int
            } else {
                1
            };
            &&& command == WindowCommand::Close ==> after.preview is None
            &&& command != WindowCommand::Close ==> after.preview is Some
            &&& (command == WindowCommand::Down || command == WindowCommand::PageDown)
                ==> after.preview->0.back == (if back < lines {
                0
            } else {
                back - lines
            })
            &&& (command == WindowCommand::Up || command == WindowCommand::PageUp) && back + lines
                <= usize::MAX ==> after.preview->0.back == back + lines
            &&& (command == WindowCommand::Up || command == WindowCommand::PageUp) && back + lines
                > usize::MAX ==> after.preview->0.back == usize::MAX
            &&& command == WindowCommand::Follow ==> after.preview->0.back == 0
            &&& command == WindowCommand::Nothing || command == WindowCommand::Quit
                ==> after.preview == s.preview
        }),
{
}

/// Closing the window forgets what it showed, and leaves the reader nothing to
/// read.
pub proof fn lemma_closing_the_window(s: State, key: Key, now: u64)
    requires
        s.preview is Some,
        keys::window_command_of(key) == WindowCommand::Close,
    ensures
        ({
            let after = pressed(s, key, now).0;
            &&& after.preview is None
            &&& after.tail.items.len() == 0
            &&& after.tail.requests.last() == None::<String>
            &&& !after.should_quit || s.should_quit
        }),
{
}

/// A window at the end of its log has its path read, and one that is not, or
/// that is closed, has nothing read.
pub proof fn lemma_what_is_read(s: State)
    ensures
        s.preview is None ==> previewed(s) is None,
        s.preview matches Some(preview) ==> (if preview.back == 0 {
            previewed(s) == Some(preview.path)
        } else {
            previewed(s) is None
        }),
{
}

/// A question that has stood for a second is gone, and one that has not stands,
/// unless a cancellation has come back meanwhile.
pub proof fn lemma_a_question_stands_for_a_second(
    s: State,
    now: u64,
    clock: Moment,
    id: String,
    armed: u64,
)
    requires
        s.prompt == Some(Prompt::Confirm(id, armed)),
        s.cancels.results.len() == 0,
    ensures
        now >= armed + 1_000_000_000 ==> advanced(s, now, clock).prompt is None,
        now < armed + 1_000_000_000 ==> advanced(s, now, clock).prompt == s.prompt,
{
}

/// The last cancellation to come back is the one reported: the job it was for,
/// or what went wrong. All of them have been read then, and the queue is asked
/// for again if Slurm took any.
pub proof fn lemma_the_last_cancellation_is_reported(s: State, now: u64, clock: Moment)
    requires
        s.cancels.results.len() > 0,
    ensures
        ({
            let after = advanced(s, now, clock);
            let (id, result) = s.cancels.results.last();
            &&& result is Ok ==> after.prompt == Some(Prompt::Done(id))
            &&& result matches Err(said) ==> after.prompt == Some(Prompt::Failed(said))
            &&& after.cancels.results.len() == 0
            &&& after.cancels.requests == s.cancels.requests
            &&& (exists|i: int|
                0 <= i < s.cancels.results.len() && (#[trigger] s.cancels.results[i]).1 is Ok)
                ==> after.queue.feed.requests == s.queue.feed.requests.push(s.only_me)
            &&& (forall|i: int|
                0 <= i < s.cancels.results.len() ==> (#[trigger] s.cancels.results[i]).1 is Err)
                ==> after.queue.feed.requests == s.queue.feed.requests
        }),
{
    let asked = feed::asked(s.queue.feed, s.only_me);
    feed::lemma_reading_leaves_nothing(asked, s.only_me);
    feed::lemma_reading_leaves_nothing(s.queue.feed, s.only_me);
}

/// What the update check reports is kept from when it is read, one report at a
/// time, and nothing else takes it away.
pub proof fn lemma_the_check_is_reported(s: State, now: u64, clock: Moment)
    ensures
        s.update.results.len() > 0 ==> advanced(s, now, clock).update.outcome == Some(
            s.update.results[0],
        ) && advanced(s, now, clock).update.results == s.update.results.drop_first(),
        s.update.results.len() == 0 ==> advanced(s, now, clock).update == s.update,
        advanced(s, now, clock).update.due == s.update.due,
{
}

/// What arrives for what is on screen is on screen when it has been read: the
/// last rows to arrive, or what went wrong.
pub proof fn lemma_what_arrives_is_shown(s: State, now: u64, clock: Moment)
    ensures
        ({
            let after = advanced(s, now, clock);
            &&& s.wallet.results.len() > 0 ==> match s.wallet.results.last().1 {
                Ok(items) => after.wallet.items == items@ && after.wallet.error is None,
                Err(said) => after.wallet.error == Some(said),
            }
            &&& s.recent.feed.results.len() > 0 ==> match s.recent.feed.results.last().1 {
                Ok(items) => after.recent.feed.items == items@ && after.recent.feed.error is None,
                Err(said) => after.recent.feed.error == Some(said),
            }
            &&& s.queue.feed.results.len() > 0 && s.queue.feed.results.last().0 == s.only_me
                ==> match s.queue.feed.results.last().1 {
                Ok(items) => after.queue.feed.items == items@ && after.queue.feed.error is None,
                Err(said) => after.queue.feed.error == Some(said),
            }
            &&& s.wallet.results.len() == 0 ==> after.wallet == s.wallet
            &&& s.recent.feed.results.len() == 0 ==> after.recent == s.recent && after.costs
                == s.costs
        }),
{
    if s.wallet.results.len() > 0 {
        feed::lemma_the_last_to_arrive_is_shown(s.wallet, ());
    }
    if s.recent.feed.results.len() > 0 {
        feed::lemma_the_last_to_arrive_is_shown(s.recent.feed, ());
    }
    if s.queue.feed.results.len() > 0 && s.queue.feed.results.last().0 == s.only_me {
        feed::lemma_the_last_to_arrive_is_shown(s.queue.feed, s.only_me);
        feed::lemma_the_last_to_arrive_is_shown(
            feed::asked(s.queue.feed, s.only_me),
            s.only_me,
        );
    }
    feed::lemma_reading_leaves_nothing(s.wallet, ());
    feed::lemma_reading_leaves_nothing(s.recent.feed, ());
    assert(s.wallet.results.len() == 0 ==> s.wallet.results =~= Seq::empty());
    assert(s.recent.feed.results.len() == 0 ==> s.recent.feed.results =~= Seq::empty());
}

/// A window at the end of its log shows the lines that arrive for it, and one
/// that is closed, or is on another log, shows none of them.
pub proof fn lemma_the_windows_lines_are_shown(s: State, now: u64, clock: Moment, path: String)
    requires
        s.tail.results.len() > 0,
        s.tail.results.last().0 == Some(path),
    ensures
        ({
            let after = advanced(s, now, clock);
            &&& s.preview is Some && s.preview->0.back == 0 && s.preview->0.path@ == path@
                ==> match s.tail.results.last().1 {
                Ok(lines) => after.tail.items == lines@ && after.tail.error is None,
                Err(said) => after.tail.error == Some(said),
            }
            &&& s.preview is None ==> after.tail == s.tail
        }),
{
    if let Some(preview) = s.preview {
        if preview.back == 0 && preview.path@ == path@ {
            feed::lemma_the_last_to_arrive_is_shown(s.tail, Some(preview.path));
        }
    }
}

/// The costs are those of the jobs that are shown, over the last day, week and
/// month, from the moment the jobs arrived.
pub proof fn lemma_the_costs_are_of_the_jobs_shown(s: State, now: u64, clock: Moment)
    requires
        s.recent.feed.results.len() > 0,
    ensures
        ({
            let after = advanced(s, now, clock);
            let jobs = after.recent.feed.items;
            after.costs == seq![
                cost::total(jobs, clock, 1),
                cost::total(jobs, clock, 7),
                cost::total(jobs, clock, 30),
            ]
        }),
{
    feed::lemma_what_arrives_is_for(s.recent.feed.results, Seq::empty(), true);
    let after = advanced(s, now, clock);
    let jobs = after.recent.feed.items;
    assert(after.costs == costs_of(jobs, clock));
    assert(costs_of(jobs, clock) =~= seq![
        cost::total(jobs, clock, 1),
        cost::total(jobs, clock, 7),
        cost::total(jobs, clock, 30),
    ]);
}

/// Time and arrivals move nothing that a key moves: the focus, the scope, the
/// columns and the window stay, and the program goes on.
pub proof fn lemma_arrivals_move_nothing(s: State, now: u64, clock: Moment)
    ensures
        ({
            let after = advanced(s, now, clock);
            &&& after.focus == s.focus
            &&& after.only_me == s.only_me
            &&& after.should_quit == s.should_quit
            &&& after.preview == s.preview
            &&& after.preview_page == s.preview_page
            &&& after.queue.column == s.queue.column && after.queue.offset == s.queue.offset
            &&& after.recent.column == s.recent.column && after.recent.offset == s.recent.offset
            &&& after.cancels.requests == s.cancels.requests
        }),
{
}

/// Whatever arrives for what is on screen earns a frame, and so does a question
/// that has stood too long.
pub proof fn lemma_news_earns_a_frame(s: State, now: u64)
    ensures
        s.update.results.len() > 0 ==> needs_frame(s, now),
        s.cancels.results.len() > 0 ==> needs_frame(s, now),
        s.wallet.results.len() > 0 ==> needs_frame(s, now),
        s.recent.feed.results.len() > 0 ==> needs_frame(s, now),
        (exists|i: int|
            0 <= i < s.queue.feed.results.len() && (#[trigger] s.queue.feed.results[i]).0
                == s.only_me) ==> needs_frame(s, now),
        s.prompt matches Some(Prompt::Confirm(_, armed)) && now >= armed + 1_000_000_000
            ==> needs_frame(s, now),
{
    feed::lemma_what_arrives_is_for(s.wallet.results, Seq::empty(), true);
    feed::lemma_what_arrives_is_for(s.recent.feed.results, Seq::empty(), true);
    feed::lemma_what_arrives_is_for(Seq::empty(), s.queue.feed.results, s.only_me);
}

/// Every key that does something has it drawn, a changed size has everything
/// drawn, and anything else that the terminal reports has nothing drawn.
pub proof fn lemma_what_a_key_does_is_drawn(s: State, key: Key, now: u64)
    ensures
        handled(s, Event::Press(key), now) == pressed(s, key, now),
        handled(s, Event::Resize, now) == (s, true),
        handled(s, Event::Other, now) == (s, false),
        s.prompt is Some ==> pressed(s, key, now).1,
        s.preview is Some && keys::window_command_of(key) != WindowCommand::Nothing ==> pressed(
            s,
            key,
            now,
        ).1,
        s.preview is None && keys::command_of(key) != Command::Nothing && keys::command_of(key)
            != Command::Cancel && keys::command_of(key) != Command::Open ==> pressed(s, key, now).1,
        pressed(s, key, now).0.cancels != s.cancels ==> pressed(s, key, now).1,
{
}

/// A `d` that nothing is selected for, or that the queue does not have, asks
/// nothing; any other that answers no question asks about the selected job.
pub proof fn lemma_a_first_press_asks(s: State, key: Key, now: u64)
    requires
        s.preview is None,
        keys::command_of(key) == Command::Cancel,
        !(s.prompt matches Some(Prompt::Confirm(_, armed)) && now < armed + 1_000_000_000),
    ensures
        ({
            let after = pressed(s, key, now).0;
            &&& s.focus == Focus::Queue && s.queue.selected < s.queue.feed.items.len()
                ==> after.prompt == Some(
                Prompt::Confirm(s.queue.feed.items[s.queue.selected as int].id, now),
            )
            &&& s.focus == Focus::Recent || s.queue.selected >= s.queue.feed.items.len()
                ==> after.prompt is None
            &&& after == (State { prompt: after.prompt, ..s })
        }),
{
}

/// The program opens on the queue and on the current user's jobs, with
/// everything asked for once and nothing arrived, and each command is run again
/// when its interval has passed: the balances after a minute, the queue and an
/// open log after a second, and the recent jobs after half a minute.
pub proof fn lemma_how_the_program_opens(check_update: bool)
    ensures
        ({
            let s = opened(check_update);
            &&& s.focus == Focus::Queue && s.only_me && !s.should_quit
            &&& s.prompt is None && s.preview is None
            &&& s.wallet.requests == seq![()] && s.wallet.interval == 60
            &&& s.queue.feed.requests == seq![true] && s.queue.feed.interval == 1
            &&& s.recent.feed.requests == seq![()] && s.recent.feed.interval == 30
            &&& s.tail.requests == seq![None::<String>] && s.tail.interval == 1
            &&& s.wallet.loading && s.queue.feed.loading && s.recent.feed.loading
            &&& s.wallet.items.len() == 0 && s.queue.feed.items.len() == 0
                && s.recent.feed.items.len() == 0
            &&& s.cancels.requests.len() == 0
            &&& s.update.due == check_update && s.update.outcome is None
            &&& !needs_frame(s, 0)
        }),
{
}

/// A refresh asks for everything once more and moves nothing; the scope's key
/// asks for the queue and puts its selection on top, and moves nothing else;
/// quitting only quits; and a key without a meaning only answers the footer.
pub proof fn lemma_what_keys_leave_alone(s: State, key: Key, now: u64)
    requires
        s.preview is None,
    ensures
        ({
            let (after, changed) = pressed(s, key, now);
            let command = keys::command_of(key);
            &&& command == Command::Refresh ==> after == (State {
                wallet: FeedState { requests: s.wallet.requests.push(()), ..s.wallet },
                queue: PaneState {
                    feed: FeedState {
                        requests: s.queue.feed.requests.push(s.only_me),
                        ..s.queue.feed
                    },
                    ..s.queue
                },
                recent: PaneState {
                    feed: FeedState { requests: s.recent.feed.requests.push(()), ..s.recent.feed },
                    ..s.recent
                },
                prompt: None,
                ..s
            })
            &&& command == Command::Scope ==> after == (State {
                only_me: !s.only_me,
                queue: PaneState {
                    feed: FeedState {
                        requests: s.queue.feed.requests.push(!s.only_me),
                        ..s.queue.feed
                    },
                    selected: 0,
                    ..s.queue
                },
                prompt: None,
                ..s
            })
            &&& command == Command::Quit ==> after == (State {
                should_quit: true,
                prompt: None,
                ..s
            })
            &&& command == Command::Nothing ==> after == (State { prompt: None, ..s }) && changed
                == (s.prompt is Some)
        }),
{
}

/// An answer in time cancels the job that was asked about and says so, and does
/// nothing else. With the other pane in focus nothing is cancelled.
pub proof fn lemma_an_answer_in_time(s: State, key: Key, id: String, armed: u64, now: u64)
    requires
        s.preview is None,
        keys::command_of(key) == Command::Cancel,
        s.prompt == Some(Prompt::Confirm(id, armed)),
        now < armed + 1_000_000_000,
    ensures
        ({
            let after = pressed(s, key, now).0;
            &&& s.focus == Focus::Queue ==> after == (State {
                cancels: CancelsState { requests: s.cancels.requests.push(id), ..s.cancels },
                prompt: Some(Prompt::Sent(id)),
                ..s
            })
            &&& s.focus == Focus::Recent ==> after == (State { prompt: None, ..s })
        }),
{
}

/// A key in an open window changes how far back it is, or closes it, and tells
/// the reader; it forgets no line unless it closes it, and one without a meaning
/// only answers the footer.
pub proof fn lemma_what_window_keys_leave_alone(s: State, key: Key, now: u64)
    requires
        s.preview is Some,
    ensures
        ({
            let (after, changed) = pressed(s, key, now);
            let command = keys::window_command_of(key);
            &&& command == WindowCommand::Nothing ==> after == (State { prompt: None, ..s })
                && changed == (s.prompt is Some)
            &&& command != WindowCommand::Nothing ==> {
                &&& changed
                &&& after.tail.requests.last() == previewed(after)
                &&& after.tail.requests.take(s.tail.requests.len() as int) == s.tail.requests
            }
            &&& command != WindowCommand::Close ==> after.tail == (FeedState {
                requests: after.tail.requests,
                ..s.tail
            })
            &&& after == (State {
                preview: after.preview,
                tail: after.tail,
                should_quit: after.should_quit,
                prompt: None,
                ..s
            })
        }),
{
    let after = pressed(s, key, now).0;
    if keys::window_command_of(key) == WindowCommand::Close {
        assert(after.tail.requests.take(s.tail.requests.len() as int) =~= s.tail.requests);
    } else if keys::window_command_of(key) != WindowCommand::Nothing {
        assert(after.tail.requests.take(s.tail.requests.len() as int) =~= s.tail.requests);
    } else {
        assert(s.tail.requests.take(s.tail.requests.len() as int) =~= s.tail.requests);
    }
}

/// The panes read what arrived for them and keep your place in their lists, and
/// an open window at the end of its log reads what arrived for its path.
pub proof fn lemma_each_reads_what_is_its_own(s: State, now: u64, clock: Moment)
    ensures
        ({
            let after = advanced(s, now, clock);
            &&& after.wallet == feed::updated(s.wallet, ())
            &&& after.recent == pane::updated(s.recent, ())
            &&& after.queue == pane::updated(
                PaneState {
                    feed: FeedState { requests: after.queue.feed.requests, ..s.queue.feed },
                    ..s.queue
                },
                s.only_me,
            )
            &&& s.preview is Some && s.preview->0.back == 0 ==> after.tail == feed::updated(
                s.tail,
                Some(s.preview->0.path),
            )
            &&& s.preview is None || s.preview->0.back > 0 ==> after.tail == s.tail
        }),
{
    let asked = feed::asked(s.queue.feed, s.only_me);
    feed::lemma_reading_leaves_nothing(asked, s.only_me);
    feed::lemma_reading_leaves_nothing(s.queue.feed, s.only_me);
}

/// A frame is earned by a report of the check, by a cancellation that came back,
/// by a question that stood too long, and by what arrived for something on
/// screen, and by nothing else.
pub proof fn lemma_what_earns_a_frame(s: State, now: u64)
    ensures
        needs_frame(s, now) <==> {
            ||| s.update.results.len() > 0
            ||| s.cancels.results.len() > 0
            ||| s.wallet.results.len() > 0
            ||| s.recent.feed.results.len() > 0
            ||| exists|i: int|
                0 <= i < s.queue.feed.results.len() && (#[trigger] s.queue.feed.results[i]).0
                    == s.only_me
            ||| s.prompt matches Some(Prompt::Confirm(_, armed)) && now >= armed + 1_000_000_000
            ||| s.preview is Some && s.preview->0.back == 0 && exists|i: int|
                0 <= i < s.tail.results.len() && (#[trigger] s.tail.results[i]).0 is Some
                    && s.tail.results[i].0->0@ == s.preview->0.path@
        },
{
    feed::lemma_what_arrives_is_for(s.wallet.results, Seq::empty(), true);
    feed::lemma_what_arrives_is_for(s.recent.feed.results, Seq::empty(), true);
    feed::lemma_what_arrives_is_for(Seq::empty(), s.queue.feed.results, s.only_me);
    if s.preview is Some {
        feed::lemma_lines_arrive_for_a_path(s.tail.results, s.preview->0.path);
    }
}

/// What is on screen is what the program holds.
pub proof fn lemma_the_screen_is_what_is_held(app: App)
    ensures
        app@.wallet == app.wallet@ && app@.queue == app.queue@ && app@.recent == app.recent@,
        app@.tail == app.tail@,
        app@.costs == seq![app.costs@[0]@, app.costs@[1]@, app.costs@[2]@],
        app@.focus == app.focus && app@.only_me == app.only_me,
        app@.update.due == app.update.due && app@.update.results == app.update.results@
            && app@.update.outcome == app.update.outcome,
        app@.cancels.requests == app.cancels.requests@ && app@.cancels.results
            == app.cancels.results@,
        app@.prompt == app.prompt && app@.preview == app.preview,
        app@.preview_page == app.preview_page && app@.should_quit == app.should_quit,
{
    assert(app@.costs =~= seq![app.costs@[0]@, app.costs@[1]@, app.costs@[2]@]);
}

/// With no window open, `j` selects the next row of the pane in focus and `k`
/// the one before it, as far as there is one; the other pane's selection stays.
pub proof fn lemma_j_goes_down_and_k_goes_up(
    app: &mut App,
    control: bool,
    now: u64,
    down: bool,
    drawn: bool,
)
    requires
        call_ensures(
            App::handle_event,
            (
                app,
                Event::Press(
                    keys::typed(
                        if down {
                            'j'
                        } else {
                            'k'
                        },
                        control,
                    ),
                ),
                now,
            ),
            drawn,
        ),
        old(app).preview is None,
        old(app).queue.selected < old(app).queue.feed.items@.len() <= usize::MAX,
        old(app).recent.selected < old(app).recent.feed.items@.len() <= usize::MAX,
    ensures
        drawn,
        old(app).focus == Focus::Queue ==> final(app).recent.selected == old(app).recent.selected
            && final(app).queue.selected == (if down {
            if old(app).queue.selected + 1 < old(app).queue.feed.items@.len() {
                old(app).queue.selected + 1
            } else {
                old(app).queue.selected as int
            }
        } else {
            if old(app).queue.selected > 0 {
                old(app).queue.selected - 1
            } else {
                0
            }
        }),
        old(app).focus == Focus::Recent ==> final(app).queue.selected == old(app).queue.selected
            && final(app).recent.selected == (if down {
            if old(app).recent.selected + 1 < old(app).recent.feed.items@.len() {
                old(app).recent.selected + 1
            } else {
                old(app).recent.selected as int
            }
        } else {
            if old(app).recent.selected > 0 {
                old(app).recent.selected - 1
            } else {
                0
            }
        }),
{
    let key = keys::typed(
        if down {
            'j'
        } else {
            'k'
        },
        control,
    );
    keys::lemma_keys_that_move(control);
    lemma_next_is_down_and_previous_is_up(old(app)@, key, now);
    assert(final(app)@ == pressed(old(app)@, key, now).0);
    assert(final(app)@.queue.selected == final(app).queue.selected);
    assert(final(app)@.recent.selected == final(app).recent.selected);
}

/// Handling a key, and reading what has arrived, leave the screen as a key and
/// an arrival make it, and report whether there is anything to draw.
pub proof fn lemma_the_screen_is_led_by_keys_and_arrivals(
    app: &mut App,
    key: Key,
    drawn: bool,
    later: &mut App,
    clock: Moment,
    redrawn: bool,
    now: u64,
)
    requires
        call_ensures(App::handle_event, (app, Event::Press(key), now), drawn),
        call_ensures(App::advance, (later, now, clock), redrawn),
    ensures
        (final(app)@, drawn) == pressed(old(app)@, key, now),
        final(later)@ == advanced(old(later)@, now, clock),
        redrawn == needs_frame(old(later)@, now),
{
}

} // verus!
