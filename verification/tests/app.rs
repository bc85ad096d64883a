use nchctop::app::{App, Focus, Prompt, CONFIRM};
use nchctop::cost;
use nchctop::feed::Feed;
use nchctop::keys::{command, window_command, Command, Event, Key, KeyCode, WindowCommand};
use nchctop::logtail;
use nchctop::moment::timestamp;
use nchctop::natural::Natural;
use nchctop::pane::Pane;
use nchctop::poller::Poller;
use nchctop::rows::Rows;
use nchctop::sacct::Run;
use nchctop::scancel::Cancels;
use nchctop::squeue::Job;
use nchctop::update::{Check, Outcome};

/// The time the presses below happen at.
const NOW: u64 = 5 * CONFIRM;

/// A queue row with nothing filled in but the id: cancelling only ever
/// looks at that.
fn job(id: &str) -> Job {
    Job {
        id: id.to_string(),
        partition: String::new(),
        name: String::new(),
        user: String::new(),
        state: String::new(),
        cpus: String::new(),
        gpus: String::new(),
        mem: String::new(),
        time: String::new(),
        nodes: String::new(),
        reason: String::new(),
        log: String::new(),
    }
}

/// An app holding `jobs` in the queue. Nothing polls behind it, and nothing
/// carries out a cancellation it sends.
fn app(jobs: &[&str]) -> App {
    let mut queue = Pane::new(Poller::spawn(3600, true));
    queue.feed.items = jobs.iter().copied().map(job).collect();
    queue.feed.loading = false;

    App {
        wallet: Feed::new(Poller::spawn(3600, ())),
        queue,
        recent: Pane::new(Poller::spawn(3600, ())),
        costs: [0, 0, 0].map(Natural::of),
        focus: Focus::Queue,
        only_me: true,
        update: Check::idle(),
        cancels: Cancels::new(),
        prompt: None,
        preview: None,
        preview_page: 0,
        tail: Feed::new(logtail::poll()),
        should_quit: false,
    }
}

/// A finished run, for a recent pane that only has to have rows in it.
fn run() -> Run {
    Run::parse(
        "310011|dev|train-a|alice|FAILED|billing=12,cpu=12,gres/gpu=1,mem=200G,node=1|00:00:14|2026-08-28T19:56:24|1:0|2026-08-28T19:56:10|/work/alice|slurm-%j.out",
        None,
    )
    .expect("parsed")
}

fn press(app: &mut App, code: KeyCode) -> bool {
    app.handle_event(Event::Press(Key { code, control: false }), NOW)
}

fn press_control(app: &mut App, code: KeyCode) -> bool {
    app.handle_event(Event::Press(Key { code, control: true }), NOW)
}

/// `l` walks the table right, `h` walks it back.
#[test]
fn the_columns_move_sideways() {
    let mut app = app(&["308208"]);

    assert!(press(&mut app, KeyCode::Char('l')));
    assert_eq!(app.queue.column, 1);

    assert!(press(&mut app, KeyCode::Char('h')));
    assert_eq!(app.queue.column, 0);
}

/// Rightwards stops with the last column still on screen, rather than
/// scrolling into an empty pane with no sign of the way back.
#[test]
fn the_columns_stop_at_both_ends() {
    let mut app = app(&["308208"]);
    let columns = <Job as Rows>::columns().len();

    for _ in 0..columns * 2 {
        press(&mut app, KeyCode::Char('l'));
    }
    assert_eq!(app.queue.column, columns - 1);

    for _ in 0..columns * 2 {
        press(&mut app, KeyCode::Char('h'));
    }
    assert_eq!(app.queue.column, 0);
}

/// Sideways is per pane, the way `j`/`k` already are: the two have
/// different columns, and reading one is not a reason to move the other.
#[test]
fn each_pane_keeps_its_own_column() {
    let mut app = app(&["308208"]);

    press(&mut app, KeyCode::Char('l'));
    press(&mut app, KeyCode::Char('l'));
    press(&mut app, KeyCode::Tab);

    assert_eq!(app.queue.column, 2);
    assert_eq!(app.recent.column, 0);
}

/// A queue row carrying a log path, which is what `p` opens.
fn job_with_log(id: &str, log: &str) -> Job {
    let mut job = job(id);
    job.log = log.to_string();
    job
}

/// `p` opens a window on the selected job's log, and names the file the
/// reader is to read.
#[test]
fn opens_a_window_on_the_selected_log() {
    let mut app = app(&["319141"]);
    app.queue.feed.items = vec![job_with_log("319141", "/work/alice/slurm-319141.out")];

    assert!(press(&mut app, KeyCode::Char('p')));
    assert_eq!(
        app.previewing(),
        Some("/work/alice/slurm-319141.out".to_string())
    );
}

/// A job launched with `srun` has no file to show, so `p` does nothing —
/// rather than opening a window on an error.
#[test]
fn opens_nothing_for_a_job_with_no_log() {
    let mut app = app(&["319141"]);
    app.queue.feed.items = vec![job_with_log("319141", "-")];

    assert!(!press(&mut app, KeyCode::Char('p')));
    assert_eq!(app.previewing(), None);
}

/// `p` again closes it, and the reader goes back to reading nothing.
#[test]
fn closes_the_window_and_stops_reading() {
    let mut app = app(&["319141"]);
    app.queue.feed.items = vec![job_with_log("319141", "/work/alice/slurm-319141.out")];

    press(&mut app, KeyCode::Char('p'));
    assert!(press(&mut app, KeyCode::Char('p')));

    assert_eq!(app.previewing(), None);
    assert!(app.tail.items.is_empty());
}

/// An open window has the movement keys: `k` walks back up the log, and
/// the queue underneath keeps its own selection.
#[test]
fn the_window_takes_the_movement_keys() {
    let mut app = app(&["319141", "319142"]);
    app.queue.feed.items = vec![
        job_with_log("319141", "/work/alice/a.out"),
        job_with_log("319142", "/work/alice/b.out"),
    ];

    press(&mut app, KeyCode::Char('p'));
    press(&mut app, KeyCode::Char('k'));
    press(&mut app, KeyCode::Char('k'));

    assert_eq!(app.preview.as_ref().expect("open").back, 2);
    assert_eq!(app.queue.selected, 0, "the pane moved under the window");

    // `j` walks back towards the end, and `G` returns to it outright.
    press(&mut app, KeyCode::Char('j'));
    assert_eq!(app.preview.as_ref().expect("open").back, 1);
    press(&mut app, KeyCode::Char('G'));
    assert_eq!(app.preview.as_ref().expect("open").back, 0);
}

/// Scrolling back stops the window taking new lines, so what you are
/// reading does not slide down as the job writes more.
#[test]
fn scrolling_back_pauses_the_reading() {
    let mut app = app(&["319141"]);
    app.queue.feed.items = vec![job_with_log("319141", "/work/alice/a.out")];

    press(&mut app, KeyCode::Char('p'));
    assert!(app.following());
    assert_eq!(app.previewing(), Some("/work/alice/a.out".to_string()));

    press(&mut app, KeyCode::Char('k'));
    assert!(!app.following());
    // The reader is idled too, rather than reading into a channel nobody
    // is draining.
    assert_eq!(app.previewing(), None);
    assert!(!app.apply_tail(), "took lines while scrolled back");
}

/// `G` returns to the end, and the reading with it.
#[test]
fn following_again_starts_the_reading() {
    let mut app = app(&["319141"]);
    app.queue.feed.items = vec![job_with_log("319141", "/work/alice/a.out")];

    press(&mut app, KeyCode::Char('p'));
    press(&mut app, KeyCode::Char('k'));
    press(&mut app, KeyCode::Char('G'));

    assert!(app.following());
    assert_eq!(app.previewing(), Some("/work/alice/a.out".to_string()));
}

/// `dd` must not reach through an open window: the keys belong to it.
#[test]
fn the_window_swallows_a_cancellation() {
    let mut app = app(&["319141"]);
    app.queue.feed.items = vec![job_with_log("319141", "/work/alice/a.out")];

    press(&mut app, KeyCode::Char('p'));
    press(&mut app, KeyCode::Char('d'));
    press(&mut app, KeyCode::Char('d'));

    assert_eq!(armed(&app), None);
    assert_eq!(sent(&app), None);
}

/// The job a `d` has armed on, if it has.
fn armed(app: &App) -> Option<&str> {
    match &app.prompt {
        Some(Prompt::Confirm(id, _)) => Some(id),
        _ => None,
    }
}

/// The job a cancellation has been sent for, if one has.
fn sent(app: &App) -> Option<&str> {
    match &app.prompt {
        Some(Prompt::Sent(id)) => Some(id),
        _ => None,
    }
}

#[test]
fn one_d_only_asks() {
    let mut app = app(&["308208", "311567"]);
    app.queue.selected = 1;

    assert!(press(&mut app, KeyCode::Char('d')));
    assert_eq!(armed(&app), Some("311567"), "the selected job");
    assert!(app.cancels.requests.is_empty());
}

#[test]
fn a_second_d_cancels_it() {
    let mut app = app(&["308208"]);

    press(&mut app, KeyCode::Char('d'));
    assert!(press(&mut app, KeyCode::Char('d')));

    assert_eq!(sent(&app), Some("308208"));
    assert_eq!(app.cancels.take_requests(), ["308208"]);
}

/// The id is the one the prompt named, not whatever the cursor is over by
/// the time it is answered: the queue refetches every second.
#[test]
fn cancels_the_job_it_asked_about() {
    let mut app = app(&["308208", "311567"]);

    press(&mut app, KeyCode::Char('d'));
    // A fetch lands between the two presses, with the job gone from it.
    app.queue.feed.items = vec![job("311567")];
    press(&mut app, KeyCode::Char('d'));

    assert_eq!(sent(&app), Some("308208"));
}

/// Any other key is an answer of no, and costs a frame because the footer
/// has to go back to the keys.
#[test]
fn anything_else_answers_no() {
    let mut app = app(&["308208"]);

    press(&mut app, KeyCode::Char('d'));
    assert!(press(&mut app, KeyCode::Char('j')));

    assert!(app.prompt.is_none());
}

/// A `d` pressed a minute after another one is the first of its own pair,
/// not the second of that one.
#[test]
fn a_late_d_asks_again() {
    let mut app = app(&["308208"]);
    app.prompt = Some(Prompt::Confirm("308208".to_string(), NOW - CONFIRM));

    press(&mut app, KeyCode::Char('d'));

    assert_eq!(armed(&app), Some("308208"));
    assert_eq!(sent(&app), None, "nothing was cancelled");
}

/// And the question stops being asked once it is too late to answer it,
/// rather than sitting in the footer until the next key.
#[test]
fn the_question_expires() {
    let mut app = app(&["308208"]);

    press(&mut app, KeyCode::Char('d'));
    assert!(!app.expire_prompt(NOW), "still in time");

    app.prompt = Some(Prompt::Confirm("308208".to_string(), NOW - CONFIRM));
    assert!(app.expire_prompt(NOW), "redrawn without it");
    assert!(app.prompt.is_none());
}

/// A result is not a question, so it stays put until it is read.
#[test]
fn a_result_does_not_expire() {
    let mut app = app(&["308208"]);
    app.prompt = Some(Prompt::Done("308208".to_string()));

    assert!(!app.expire_prompt(NOW));
    assert!(app.prompt.is_some());
}

/// The other pane is jobs that have already ended.
#[test]
fn d_asks_nothing_of_the_recent_pane() {
    let mut app = app(&["308208"]);
    app.focus = Focus::Recent;

    assert!(!press(&mut app, KeyCode::Char('d')));
    assert!(app.prompt.is_none());
}

#[test]
fn d_asks_nothing_of_an_empty_queue() {
    let mut app = app(&[]);

    assert!(!press(&mut app, KeyCode::Char('d')));
    assert!(app.prompt.is_none());
}

/// ctrl-d still pages, rather than arming the pane it just scrolled.
#[test]
fn ctrl_d_still_pages() {
    let mut app = app(&["308208", "311567", "312000"]);
    app.queue.page = 4;

    press_control(&mut app, KeyCode::Char('d'));

    assert!(app.prompt.is_none());
    assert_eq!(app.queue.selected, 2);
}

/// `m` is the queue's key alone. The recent pane is always your own jobs,
/// so it keeps both its rows and your place in them.
#[test]
fn m_switches_the_queue_alone() {
    let mut app = app(&["308208", "311567"]);
    app.recent.feed.items = vec![run(), run()];
    app.recent.selected = 1;
    app.queue.selected = 1;

    assert!(press(&mut app, KeyCode::Char('m')));

    assert!(!app.only_me, "the queue widened to every user");
    assert_eq!(app.queue.selected, 0, "a replaced queue starts at the top");
    assert_eq!(app.recent.selected, 1, "the recent pane did not move");
    assert_eq!(app.queue.feed.poller.take_requests(), [true, false]);
}

/// The last nanosecond in which the second press still counts.
#[test]
fn an_answer_in_time_is_an_answer() {
    let mut app = app(&["308208"]);
    app.prompt = Some(Prompt::Confirm("308208".to_string(), NOW - CONFIRM + 1));
    assert!(!app.expire_prompt(NOW));
    press(&mut app, KeyCode::Char('d'));
    assert_eq!(sent(&app), Some("308208"));
}

#[test]
fn opens_on_your_own_jobs() {
    let app = App::new(true);
    assert!(app.only_me);
    assert_eq!(app.focus, Focus::Queue);
    assert!(app.update.due);
    assert!(app.queue.feed.loading);
    assert_eq!(app.queue.feed.poller.requests, [true]);
    assert_eq!(app.queue.feed.poller.interval, 1);
    assert_eq!(app.recent.feed.poller.interval, 30);
    assert_eq!(app.wallet.poller.interval, 60);
    assert_eq!(app.tail.poller.requests, [None]);
    assert!(!App::new(false).update.due);
}

#[test]
fn r_refreshes_everything() {
    let mut app = app(&["1"]);
    app.queue.feed.poller.take_requests();
    app.recent.feed.poller.take_requests();
    app.wallet.poller.take_requests();
    assert!(press(&mut app, KeyCode::Char('r')));
    assert_eq!(app.queue.feed.poller.requests, [true]);
    assert_eq!(app.recent.feed.poller.requests, [()]);
    assert_eq!(app.wallet.poller.requests, [()]);
}

#[test]
fn a_key_that_means_nothing_costs_no_frame() {
    let mut app = app(&["1"]);
    assert!(!press(&mut app, KeyCode::Char('z')));
    assert!(!press(&mut app, KeyCode::Other));
    assert!(!app.handle_event(Event::Other, NOW));
    assert!(app.handle_event(Event::Resize, NOW));
    app.prompt = Some(Prompt::Done("1".to_string()));
    assert!(press(&mut app, KeyCode::Char('z')), "the footer was cleared");
}

#[test]
fn quits() {
    for code in [KeyCode::Char('q'), KeyCode::Esc] {
        let mut app = app(&["1"]);
        assert!(press(&mut app, code));
        assert!(app.should_quit);
    }
    let mut app = app(&["1"]);
    press(&mut app, KeyCode::Char('c'));
    assert!(!app.should_quit);
    press_control(&mut app, KeyCode::Char('c'));
    assert!(app.should_quit);
}

#[test]
fn focus_comes_back() {
    let mut app = app(&["1"]);
    press(&mut app, KeyCode::Tab);
    assert_eq!(app.focus, Focus::Recent);
    press(&mut app, KeyCode::BackTab);
    assert_eq!(app.focus, Focus::Queue);
}

#[test]
fn every_key_asks_for_its_command() {
    let plain = |code| command(Key { code, control: false });
    let control = |code| command(Key { code, control: true });
    assert_eq!(plain(KeyCode::Down), Command::Next);
    assert_eq!(plain(KeyCode::Up), Command::Previous);
    assert_eq!(plain(KeyCode::Char('k')), Command::Previous);
    assert_eq!(plain(KeyCode::Right), Command::Right);
    assert_eq!(plain(KeyCode::Left), Command::Left);
    assert_eq!(plain(KeyCode::Char('u')), Command::Nothing);
    assert_eq!(control(KeyCode::Char('u')), Command::HalfUp);
    assert_eq!(control(KeyCode::Char('j')), Command::Next);
    let window = |code| window_command(Key { code, control: false });
    assert_eq!(window(KeyCode::Esc), WindowCommand::Close);
    assert_eq!(window(KeyCode::Char('q')), WindowCommand::Close);
    assert_eq!(window(KeyCode::Down), WindowCommand::Down);
    assert_eq!(window(KeyCode::Up), WindowCommand::Up);
    assert_eq!(window(KeyCode::Char('d')), WindowCommand::Nothing);
    assert_eq!(window(KeyCode::Tab), WindowCommand::Nothing);
}

#[test]
fn pages_through_a_window() {
    let mut app = app(&["1"]);
    app.queue.feed.items = vec![job_with_log("1", "/a")];
    app.preview_page = 20;
    press(&mut app, KeyCode::Char('p'));
    press_control(&mut app, KeyCode::Char('u'));
    assert_eq!(app.preview.as_ref().expect("open").back, 10);
    press_control(&mut app, KeyCode::Char('d'));
    assert_eq!(app.preview.as_ref().expect("open").back, 0);
    press_control(&mut app, KeyCode::Char('c'));
    assert!(app.should_quit);
    assert!(app.preview.is_some());
    // The reader heard of every step.
    let path = Some("/a".to_string());
    assert_eq!(
        app.tail.poller.requests,
        [None, path.clone(), None, path.clone(), path]
    );
}

#[test]
fn a_window_keeps_its_log_when_the_queue_moves() {
    let mut app = app(&["1"]);
    app.queue.feed.items = vec![job_with_log("1", "/a")];
    press(&mut app, KeyCode::Char('p'));
    app.queue.feed.poller.deliver(true, Ok(vec![job_with_log("2", "/b")]));
    let clock = timestamp("2026-08-29T12:00:00").expect("parsed");
    assert!(app.advance(NOW, clock));
    assert_eq!(app.previewing(), Some("/a".to_string()));
    assert_eq!(app.queue.feed.items[0].id, "2");
}

#[test]
fn reports_the_last_cancellation_and_asks_for_the_queue() {
    let mut app = app(&["1"]);
    app.queue.feed.poller.take_requests();
    app.cancels.deliver("1".to_string(), Ok(()));
    app.cancels.deliver("2".to_string(), Err("denied".to_string()));
    assert!(app.apply_cancels());
    assert!(matches!(&app.prompt, Some(Prompt::Failed(said)) if said == "denied"));
    assert_eq!(app.queue.feed.poller.take_requests(), [true]);
    assert!(!app.apply_cancels());

    app.cancels.deliver("2".to_string(), Err("denied".to_string()));
    assert!(app.apply_cancels());
    assert!(app.queue.feed.poller.take_requests().is_empty());
    app.cancels.deliver("3".to_string(), Ok(()));
    assert!(app.apply_cancels());
    assert!(matches!(&app.prompt, Some(Prompt::Done(id)) if id == "3"));
}

#[test]
fn only_news_earns_a_frame() {
    let mut app = app(&["1"]);
    let clock = timestamp("2026-08-29T12:00:00").expect("parsed");
    assert!(!app.advance(NOW, clock));

    // A queue for the other scope is dropped.
    app.queue.feed.poller.deliver(false, Ok(Vec::new()));
    assert!(!app.advance(NOW, clock));
    assert_eq!(app.queue.feed.items.len(), 1);

    app.update.deliver(Outcome::Current);
    assert!(app.advance(NOW, clock));
    assert!(!app.advance(NOW, clock));

    app.recent.feed.poller.deliver((), Ok(vec![run(), run()]));
    assert!(app.advance(NOW, clock));
    for total in &app.costs {
        assert_eq!(cost::amount(total), "0.2 SU");
    }

    app.wallet.poller.deliver((), Err("down".to_string()));
    assert!(app.advance(NOW, clock));

    app.prompt = Some(Prompt::Confirm("1".to_string(), 0));
    assert!(app.advance(NOW, clock));
    assert!(app.prompt.is_none());
}

#[test]
fn the_window_takes_lines_while_it_follows() {
    let mut app = app(&["1"]);
    app.queue.feed.items = vec![job_with_log("1", "/a")];
    press(&mut app, KeyCode::Char('p'));
    app.tail.poller.deliver(Some("/b".to_string()), Ok(vec!["stale".to_string()]));
    assert!(!app.apply_tail());
    app.tail.poller.deliver(Some("/a".to_string()), Ok(vec!["fresh".to_string()]));
    assert!(app.apply_tail());
    assert_eq!(app.tail.items, ["fresh"]);
    press(&mut app, KeyCode::Char('k'));
    app.tail.poller.deliver(Some("/a".to_string()), Ok(vec!["later".to_string()]));
    assert!(!app.apply_tail());
    assert_eq!(app.tail.items, ["fresh"]);
}
