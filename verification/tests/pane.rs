use nchctop::feed::Feed;
use nchctop::pane::Pane;
use nchctop::poller::Poller;
use nchctop::rows::{Rows, Width};
use nchctop::squeue::Job;
use nchctop::style::{state_style, Tone};

/// A pane of `count` rows over a body `page` rows tall. Nothing polls
/// behind it, and the rows are empty: scrolling never looks at what a row
/// holds, only at how many there are.
fn pane(count: usize, page: usize) -> Pane<bool, ()> {
    Pane {
        feed: Feed {
            items: vec![(); count],
            error: None,
            loading: false,
            poller: Poller::spawn(3600, true),
        },
        selected: 0,
        offset: 0,
        column: 0,
        page,
    }
}

/// A list that fits has nothing to scroll.
#[test]
fn takes_a_short_list_whole() {
    let mut pane = pane(5, 20);

    assert_eq!(pane.window(), 0..5);
    assert_eq!(pane.offset, 0);
}

/// The point of the whole exercise: a month of everyone's jobs still costs
/// one screenful to draw.
#[test]
fn takes_only_a_screenful_of_a_long_list() {
    let mut pane = pane(84_052, 20);

    assert_eq!(pane.window(), 0..20);
}

#[test]
fn scrolls_down_to_keep_the_selection_in_view() {
    let mut pane = pane(100, 10);

    pane.selected = 9;
    assert_eq!(pane.window(), 0..10, "the last row that already fits");

    pane.selected = 10;
    assert_eq!(pane.window(), 1..11, "one row further on, so one row moves");
}

#[test]
fn scrolls_back_up_to_the_selection() {
    let mut pane = pane(100, 10);

    pane.selected = 50;
    assert_eq!(pane.window(), 41..51);

    pane.selected = 20;
    assert_eq!(pane.window(), 20..30, "the selection leads at the top edge");
}

/// The table only ever sees a window, so it cannot clamp on our behalf the
/// way it did when it held the whole list.
#[test]
fn the_selection_stops_at_both_ends() {
    let mut pane = pane(3, 10);

    for _ in 0..10 {
        pane.move_selection(1, true);
    }
    assert_eq!(pane.selected, 2);

    for _ in 0..10 {
        pane.move_selection(1, false);
    }
    assert_eq!(pane.selected, 0);
}

#[test]
fn moving_within_an_empty_list_selects_nothing() {
    let mut pane = pane(0, 10);
    pane.move_selection(1, true);

    assert_eq!(pane.selected, 0);
    assert_eq!(pane.window(), 0..0);
}

/// A list can shrink under a window scrolled far down it — `m` back to
/// your own jobs does exactly that. Both the window and the selection have
/// to come back with it, or `draw` would slice past the end.
#[test]
fn a_shrinking_list_pulls_the_window_back() {
    let mut pane = pane(100, 10);
    pane.selected = 99;
    assert_eq!(pane.window(), 90..100);

    pane.feed.items.truncate(15);
    let window = pane.window();

    assert_eq!(window, 5..15);
    assert!(window.contains(&pane.selected));
}

/// Before the first draw the body height is unmeasured, so there is no
/// window to take either.
#[test]
fn takes_no_rows_before_the_first_draw() {
    let mut pane = pane(100, 0);

    assert_eq!(pane.window(), 0..0);
}

#[test]
fn the_list_holds_still_while_the_selection_is_on_screen() {
    let mut pane = pane(100, 10);
    pane.offset = 30;
    for selected in 30..40 {
        pane.selected = selected;
        assert_eq!(pane.window(), 30..40);
    }
    assert_eq!(pane.window(), 30..40, "settled stays settled");
}

#[test]
fn half_a_screen_is_at_least_a_row() {
    let mut short = pane(9, 1);
    short.scroll_half(true);
    assert_eq!(short.selected, 1);
    let mut tall = pane(9, 7);
    tall.select_next();
    tall.scroll_half(true);
    assert_eq!(tall.selected, 4);
    tall.scroll_half(false);
    tall.select_previous();
    assert_eq!(tall.selected, 0, "moving back undoes moving");
}

fn job(id: &str, state: &str, log: &str) -> Job {
    Job {
        id: id.to_string(),
        partition: String::new(),
        name: String::new(),
        user: String::new(),
        state: state.to_string(),
        cpus: String::new(),
        gpus: String::new(),
        mem: String::new(),
        time: String::new(),
        nodes: String::new(),
        reason: String::new(),
        log: log.to_string(),
    }
}

fn queue(jobs: Vec<Job>) -> Pane<bool, Job> {
    let mut pane = Pane::new(Poller::spawn(3600, true));
    pane.feed.items = jobs;
    pane.feed.loading = false;
    pane
}

#[test]
fn draws_a_screenful_from_the_first_column_on() {
    let mut pane = queue(vec![
        job("1", "RUNNING", "/a"),
        job("2", "PENDING", "/b"),
        job("3", "FAILED", "/c"),
    ]);
    pane.column = 4;
    pane.selected = 2;
    let frame = pane.draw(5, "queue · mine", true);

    assert_eq!(pane.page, 2);
    assert_eq!(frame.columns.len(), 8);
    assert_eq!(frame.columns[0].title, "STATE");
    assert_eq!(frame.columns[0].width, Width::Length(9));
    assert_eq!(frame.columns[7].width, Width::Min(24));
    assert_eq!(frame.rows.len(), 2);
    assert_eq!(frame.rows[0][0].text, "PENDING");
    assert_eq!(frame.rows[0][0].tone, Tone::Yellow);
    assert_eq!(frame.rows[1][7].text, "/c");
    assert_eq!(frame.selected, 1);
    assert!(frame.cursor);
    assert_eq!(frame.border, Tone::Cyan);
    let title: String = frame.title.iter().map(|span| span.text.as_str()).collect();
    assert_eq!(title, " queue · mine · 3 jobs ");

    let unfocused = pane.draw(2, "queue", false);
    assert!(unfocused.rows.is_empty());
    assert!(!unfocused.cursor);
    assert_eq!(unfocused.border, Tone::Dim);
}

#[test]
fn a_column_out_of_range_shows_the_last() {
    let mut pane = queue(vec![job("1", "", "/a")]);
    pane.column = 99;
    let frame = pane.draw(9, "queue", true);
    assert_eq!(frame.columns.len(), 1);
    assert_eq!(frame.rows[0].len(), 1);
    assert_eq!(frame.rows[0][0].text, "/a");
    pane.scroll_column(true);
    assert_eq!(pane.column, <Job as Rows>::columns().len() - 1);
}

#[test]
fn only_a_file_can_be_opened() {
    let mut pane = queue(vec![job("1", "", "-"), job("2", "", ""), job("3", "", "/c")]);
    assert_eq!(pane.selected_log(), None);
    pane.selected = 1;
    assert_eq!(pane.selected_log(), None);
    pane.selected = 2;
    assert_eq!(pane.selected_log(), Some(("3".to_string(), "/c".to_string())));
    pane.selected = 3;
    assert_eq!(pane.selected_log(), None);
}

#[test]
fn rows_that_arrive_replace_the_rows() {
    let mut pane = queue(vec![job("1", "", ""), job("2", "", "")]);
    pane.selected = 1;
    assert!(!pane.apply_updates(true));

    // What was fetched for another scope is ignored.
    pane.feed.poller.deliver(false, Ok(Vec::new()));
    assert!(!pane.apply_updates(true));
    assert_eq!(pane.feed.items.len(), 2);

    pane.feed.poller.deliver(true, Ok(vec![job("9", "", "")]));
    assert!(pane.apply_updates(true));
    assert_eq!(pane.selected, 0);
    assert_eq!(pane.feed.items[0].id, "9");
}

#[test]
fn a_failure_keeps_the_rows() {
    let mut feed: Feed<bool, Job> = Feed::new(Poller::spawn(1, true));
    assert_eq!(feed.status("jobs").text, "loading");
    assert_eq!(feed.status("jobs").tone, Tone::Dim);

    feed.poller.deliver(true, Ok(vec![job("1", "", "")]));
    feed.poller.deliver(true, Err("squeue is down".to_string()));
    assert!(feed.apply_updates(&true));
    assert_eq!(feed.items.len(), 1);
    assert_eq!(feed.status("jobs").text, "squeue is down");
    assert_eq!(feed.status("jobs").tone, Tone::Red);

    feed.poller.deliver(true, Ok(Vec::new()));
    assert!(feed.apply_updates(&true));
    assert_eq!(feed.status("projects").text, "0 projects");
    assert!(!feed.loading);

    feed.refresh(false);
    assert_eq!(feed.poller.take_requests(), [true, false]);
}

#[test]
fn colours_a_state() {
    for state in ["RUNNING", "COMPLETED"] {
        assert_eq!(state_style(state), Tone::Green);
    }
    for state in ["PENDING", "SUSPENDED", "REQUEUED"] {
        assert_eq!(state_style(state), Tone::Yellow);
    }
    for state in ["FAILED", "TIMEOUT", "CANCELLED", "OUT_OF_MEMORY", "NODE_FAIL"] {
        assert_eq!(state_style(state), Tone::Red);
    }
    assert_eq!(state_style("running"), Tone::Plain);
}
