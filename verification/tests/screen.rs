use nchctop::app::{App, Focus, Preview, Prompt};
use nchctop::cost::ONE;
use nchctop::natural::Natural;
use nchctop::screen::{centred, drawn_cost, note_columns, wallet_columns, Rect};
use nchctop::style::{span, width, Span, Tone};
use nchctop::update::Outcome;
use nchctop::wallet::{Balance, Project};

fn text(line: &[Span]) -> String {
    line.iter().map(|span| span.text.as_str()).collect()
}

/// A total of so many service units.
fn total(units: f64) -> Natural {
    Natural::of((units * ONE as f64) as u128)
}

fn tones(line: &[Span]) -> Vec<Tone> {
    line.iter().map(|span| span.tone).collect()
}

#[test]
fn centres_a_box() {
    let screen = Rect {
        x: 0,
        y: 0,
        width: 100,
        height: 50,
    };
    assert_eq!(
        centred(screen, 90, 70),
        Rect {
            x: 5,
            y: 7,
            width: 90,
            height: 35
        }
    );
    let small = Rect {
        x: 3,
        y: 4,
        width: 7,
        height: 1,
    };
    assert_eq!(
        centred(small, 90, 70),
        Rect {
            x: 3,
            y: 4,
            width: 6,
            height: 0
        }
    );
    let wide = Rect {
        x: 0,
        y: 0,
        width: 65535,
        height: 65535,
    };
    assert_eq!(
        centred(wide, 100, 50),
        Rect {
            x: 0,
            y: 16384,
            width: 65535,
            height: 32767
        }
    );
}

#[test]
fn a_prompt_has_its_own_line() {
    let confirm = Prompt::Confirm("7".to_string(), 0).line();
    assert_eq!(
        text(&confirm),
        " d again to cancel job 7 · anything else, or a pause, keeps it"
    );
    assert_eq!(tones(&confirm), [Tone::Yellow, Tone::Dim]);
    let sent = Prompt::Sent("7".to_string()).line();
    assert_eq!((text(&sent).as_str(), sent[0].tone), (" cancelling 7 …", Tone::Dim));
    let done = Prompt::Done("7".to_string()).line();
    assert_eq!((text(&done).as_str(), done[0].tone), (" cancelled 7", Tone::Green));
    let failed = Prompt::Failed("no".to_string()).line();
    assert_eq!((text(&failed).as_str(), failed[0].tone), (" cancel · no", Tone::Red));
}

#[test]
fn the_footer_lists_the_keys_that_answer() {
    let mut app = App::new(false);
    assert_eq!(
        text(&app.footer()),
        " tab focus · j/k move · h/l cols · ^d/^u page · p log · dd cancel · m queue all · r refresh · q quit"
    );
    app.focus = Focus::Recent;
    app.only_me = false;
    assert_eq!(
        text(&app.footer()),
        " tab focus · j/k move · h/l cols · ^d/^u page · p log · m queue mine · r refresh · q quit"
    );
    app.preview = Some(Preview {
        id: "7".to_string(),
        path: "/a".to_string(),
        back: 0,
    });
    assert_eq!(
        text(&app.footer()),
        " j/k scroll · ^d/^u page · G follow · p/esc close"
    );
    app.prompt = Some(Prompt::Done("7".to_string()));
    assert_eq!(text(&app.footer()), " cancelled 7");
}

#[test]
fn names_the_scope_of_the_queue() {
    let mut app = App::new(false);
    assert_eq!(app.queue_name(), "queue · mine");
    app.only_me = false;
    assert_eq!(app.queue_name(), "queue · all");
}

#[test]
fn notes_an_update_worth_noting() {
    let mut app = App::new(false);
    assert!(app.update_note().is_empty());
    app.update.outcome = Some(Outcome::Current);
    assert!(app.update_note().is_empty());
    app.update.outcome = Some(Outcome::Installed("0.3.0".to_string()));
    assert_eq!(text(&app.update_note()), "updated to 0.3.0 · restart to use it ");
    assert_eq!(tones(&app.update_note()), [Tone::Green, Tone::Dim]);
    app.update.outcome = Some(Outcome::Failed("No route".to_string()));
    assert_eq!(text(&app.update_note()), "update · No route ");
}

#[test]
fn a_note_that_does_not_fit_is_dropped() {
    assert_eq!(note_columns(100, 60, 40), 40);
    assert_eq!(note_columns(100, 61, 40), 0);
    assert_eq!(note_columns(100, 200, 0), 0);
    assert_eq!(wallet_columns(80, 42), 42);
    assert_eq!(wallet_columns(80, 80), 80);
    assert_eq!(wallet_columns(80, 81), 80);
    assert_eq!(wallet_columns(u16::MAX, 70_000), u16::MAX);
}

fn project(id: &str, amount: &str, overdrawn: bool) -> Project {
    Project {
        id: id.to_string(),
        balance: Balance {
            written: amount.to_string(),
            amount: amount.to_string(),
            overdrawn,
        },
    }
}

#[test]
fn shows_every_balance() {
    let mut app = App::new(false);
    assert_eq!(text(&app.wallet_line()), " wallet · loading");
    app.wallet.loading = false;
    assert_eq!(text(&app.wallet_line()), " wallet · 0 projects");
    app.wallet.items = vec![
        project("MST000000", "12345.6", false),
        project("ACD000000", "-42.5", true),
    ];
    let line = app.wallet_line();
    assert_eq!(
        text(&line),
        " wallet · MST000000 12345.6 SU · ACD000000 -42.5 SU"
    );
    assert_eq!(
        tones(&line),
        [Tone::Dim, Tone::Dim, Tone::Green, Tone::Dim, Tone::Red]
    );
}

/// `30d` goes, then `7d`, then the total altogether.
#[test]
fn a_narrow_terminal_drops_the_longest_window() {
    let mut app = App::new(false);
    app.costs = [147.7, 267.9, 267.9].map(total);
    assert_eq!(text(&app.cost_line(0)), "cost · loading ");
    app.recent.feed.loading = false;
    let all = "cost · 1d 147.7 SU · 7d 267.9 SU · 30d 267.9 SU ";
    let columns = all.chars().count();
    assert_eq!(text(&app.cost_line(200)), all);
    assert_eq!(text(&app.cost_line(columns)), all);
    assert_eq!(
        text(&app.cost_line(columns - 1)),
        "cost · 1d 147.7 SU · 7d 267.9 SU "
    );
    assert_eq!(
        text(&app.cost_line(33)),
        "cost · 1d 147.7 SU · 7d 267.9 SU "
    );
    assert_eq!(text(&app.cost_line(32)), "cost · 1d 147.7 SU ");
    assert_eq!(text(&app.cost_line(19)), "cost · 1d 147.7 SU ");
    assert!(app.cost_line(18).is_empty());
    for width in 0..100 {
        assert!(text(&app.cost_line(width)).chars().count() <= width);
    }
}

/// A line as wide as there is room for is shown whole.
#[test]
fn every_window_is_shown_that_there_is_room_for() {
    let mut app = App::new(false);
    app.recent.feed.loading = false;
    app.costs = [30.0, 60.0, 90.0].map(total);
    assert_eq!(
        text(&app.cost_line(45)),
        "cost · 1d 30.0 SU · 7d 60.0 SU · 30d 90.0 SU "
    );
    assert_eq!(
        text(&app.cost_line(44)),
        "cost · 1d 30.0 SU · 7d 60.0 SU "
    );
}

#[test]
fn a_cost_line_that_does_not_fit_is_not_drawn() {
    let line = || vec![span("cost", Tone::Dim)];
    assert_eq!(drawn_cost(line(), 4, 4).len(), 1);
    assert!(drawn_cost(line(), 4, 3).is_empty());
}

/// A cell of a terminal holds half of a wide character, and a mark that is
/// written over another takes none.
#[test]
fn a_line_is_as_wide_as_its_runs() {
    assert_eq!(width(&vec![]), 0);
    assert_eq!(width(&vec![span("cost", Tone::Dim), span(" · 1d ", Tone::Plain)]), 10);
    assert_eq!(width(&vec![span("計算", Tone::Dim), span("e\u{301}", Tone::Dim)]), 5);
}

/// The balances are measured out first, and the cost takes what is left over.
#[test]
fn the_header_gives_the_balances_what_they_need() {
    let mut app = App::new(false);
    app.wallet.loading = false;
    app.wallet.items = vec![project("MST000000", "12345.6", false)];
    app.recent.feed.loading = false;
    app.costs = [30.0, 60.0, 90.0].map(total);
    let wallet = " wallet · MST000000 12345.6 SU";
    let needed = wallet.chars().count() as u16;
    assert_eq!(needed, 30);
    for (terminal, cost) in [
        (75, "cost · 1d 30.0 SU · 7d 60.0 SU · 30d 90.0 SU "),
        (74, "cost · 1d 30.0 SU · 7d 60.0 SU "),
        (60, "cost · 1d 30.0 SU "),
        (47, ""),
        (30, ""),
    ] {
        let header = app.draw_header(terminal);
        assert_eq!(text(&header.wallet), wallet);
        assert_eq!(header.balances, needed);
        assert_eq!(header.costs, terminal - needed);
        assert_eq!(text(&header.cost), cost, "{terminal}");
    }
    let header = app.draw_header(12);
    assert_eq!((header.balances, header.costs), (12, 0));
    assert!(header.cost.is_empty());

    // A name that takes two columns to the character leaves the cost fewer.
    app.wallet.items = vec![project("計畫", "1.0", false)];
    let header = app.draw_header(80);
    assert_eq!(header.balances, 21);
    assert_eq!(header.costs, 59);

    // Before the first fetch the line does not shrink, so it goes.
    app.recent.feed.loading = true;
    assert_eq!(text(&app.draw_header(36).cost), "cost · loading ");
    assert!(app.draw_header(35).cost.is_empty());
}

/// The note is dropped rather than shortened, because the keys are what you are
/// down here to read.
#[test]
fn the_footer_gives_the_keys_what_they_need() {
    let mut app = App::new(false);
    app.prompt = Some(Prompt::Done("7".to_string()));
    app.update.outcome = Some(Outcome::Failed("No route".to_string()));
    let footer = app.draw_footer(30);
    assert_eq!(text(&footer.keys), " cancelled 7");
    assert_eq!(text(&footer.note), "update · No route ");
    assert_eq!((footer.keys_columns, footer.note_columns), (12, 18));
    let footer = app.draw_footer(29);
    assert_eq!((footer.keys_columns, footer.note_columns), (29, 0));
    let footer = app.draw_footer(5);
    assert_eq!((footer.keys_columns, footer.note_columns), (5, 0));
    app.update.outcome = Some(Outcome::Failed("連線失敗".to_string()));
    let footer = app.draw_footer(30);
    assert_eq!((footer.keys_columns, footer.note_columns), (12, 18));
    app.update.outcome = None;
    let footer = app.draw_footer(30);
    assert!(footer.note.is_empty());
    assert_eq!((footer.keys_columns, footer.note_columns), (30, 0));
}

fn previewing(lines: usize, back: usize) -> App {
    let mut app = App::new(false);
    app.preview = Some(Preview {
        id: "7".to_string(),
        path: "/a".to_string(),
        back,
    });
    app.tail.items = (0..lines).map(|n| n.to_string()).collect();
    app.tail.loading = false;
    app
}

const SCREEN: Rect = Rect {
    x: 0,
    y: 0,
    width: 100,
    height: 10,
};

#[test]
fn the_window_shows_the_end_of_the_log() {
    let mut app = previewing(9, 0);
    let frame = app.draw_preview(SCREEN).expect("open");
    assert_eq!(app.preview_page, 5);
    assert_eq!(
        frame.area,
        Rect {
            x: 5,
            y: 1,
            width: 90,
            height: 7
        }
    );
    assert_eq!(text(&frame.title), " 7 · /a ");
    assert_eq!(tones(&frame.title), [Tone::Plain, Tone::Dim, Tone::Plain]);
    assert_eq!(text(&frame.lines), "45678");
    assert_eq!(frame.footer.text, " following ");
    assert_eq!(frame.footer.tone, Tone::Green);
}

#[test]
fn the_window_stops_at_the_first_line() {
    let mut app = previewing(9, 3);
    let frame = app.draw_preview(SCREEN).expect("open");
    assert_eq!(text(&frame.lines), "12345");
    assert_eq!(frame.footer.text, " 3 lines back · paused · G to follow ");
    assert_eq!(frame.footer.tone, Tone::Yellow);

    let mut app = previewing(9, 100);
    let frame = app.draw_preview(SCREEN).expect("open");
    assert_eq!(text(&frame.lines), "01234");
    assert_eq!(frame.footer.text, " 4 lines back · paused · G to follow ");
}

#[test]
fn the_window_says_what_there_is_to_read() {
    let mut app = previewing(0, 0);
    let frame = app.draw_preview(SCREEN).expect("open");
    assert_eq!((text(&frame.lines).as_str(), frame.lines[0].tone), ("empty", Tone::Dim));
    app.tail.loading = true;
    let frame = app.draw_preview(SCREEN).expect("open");
    assert_eq!(text(&frame.lines), "reading…");
    app.tail.error = Some("No such file".to_string());
    let frame = app.draw_preview(SCREEN).expect("open");
    assert_eq!((text(&frame.lines).as_str(), frame.lines[0].tone), ("No such file", Tone::Red));
    app.preview = None;
    assert!(app.draw_preview(SCREEN).is_none());
}
