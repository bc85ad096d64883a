use nchctop::logtail::{
    fetched, poll, readable, start_of, strip_ansi, tail, Chunk, INTERVAL, LINES, WINDOW,
};

#[test]
fn keeps_every_line_of_a_short_file() {
    assert_eq!(tail("one\ntwo\nthree\n", false), ["one", "two", "three"]);
}

/// A chunk read from the middle of a file opens on the tail of a line
/// whose beginning was never read.
#[test]
fn drops_the_line_the_window_cut_in_half() {
    assert_eq!(tail("ff 0.83\nnext\n", true), ["next"]);
    // The same text, read from the start of the file, keeps it.
    assert_eq!(tail("ff 0.83\nnext\n", false), ["ff 0.83", "next"]);
}

#[test]
fn keeps_only_the_last_lines() {
    let text: String = (0..LINES * 2).map(|n| format!("line {n}\n")).collect();
    let lines = tail(&text, false);

    assert_eq!(lines.len(), LINES);
    assert_eq!(lines[0], format!("line {}", LINES));
    assert_eq!(lines[LINES - 1], format!("line {}", LINES * 2 - 1));
}

/// A progress bar rewrites one line over and over; only its last state was
/// ever on screen.
#[test]
fn shows_only_what_a_progress_bar_last_wrote() {
    assert_eq!(
        readable("10%|## |\r50%|##### |\r99%|#########|"),
        "99%|#########|"
    );
}

#[test]
fn drops_colour_codes() {
    assert_eq!(
        readable("\u{1b}[31mFAILED\u{1b}[0m: step 3"),
        "FAILED: step 3"
    );
    assert_eq!(readable("\u{1b}[1;33mwarn\u{1b}[m x"), "warn x");
}

#[test]
fn spells_a_tab_out_in_spaces() {
    assert_eq!(readable("loss\t0.83"), "loss    0.83");
}

/// Nothing to read is not an error: it is the reader with no preview open.
#[test]
fn reads_nothing_when_no_preview_is_open() {
    assert_eq!(fetched(None).expect("idle"), Vec::<String>::new());
}

/// A pending job names a file that does not exist yet, which the window
/// has to report rather than showing as an empty log.
#[test]
fn reports_a_file_that_is_not_there() {
    assert!(fetched(Some(Err(
        "/nonexistent/slurm-1.out: No such file or directory".to_string()
    )))
    .is_err());
}

#[test]
fn reads_the_end_of_a_file() {
    let whole = Chunk {
        end: 8,
        bytes: b"one\ntwo\n".to_vec(),
    };
    assert_eq!(fetched(Some(Ok(whole))).expect("read"), ["one", "two"]);

    let end = Chunk {
        end: WINDOW + 1,
        bytes: b"one\ntwo\n".to_vec(),
    };
    assert_eq!(fetched(Some(Ok(end))).expect("read"), ["two"]);

    let broken = Chunk {
        end: 3,
        bytes: vec![b'a', 0xff, b'b'],
    };
    assert_eq!(fetched(Some(Ok(broken))).expect("read"), ["a\u{fffd}b"]);
}

#[test]
fn starts_at_the_last_window_of_a_file() {
    assert_eq!(start_of(0), 0);
    assert_eq!(start_of(64 * 1024), 0);
    assert_eq!(start_of(64 * 1024 + 7), 7);
}

#[test]
fn drops_every_other_control_character() {
    assert_eq!(strip_ansi("a\u{7}b\u{9b}c\td"), "abc\td");
    // A short escape takes the one character after it.
    assert_eq!(strip_ansi("a\u{1b}Mb"), "ab");
    // One that never ends takes the rest of the line.
    assert_eq!(strip_ansi("a\u{1b}[12;"), "a");
    assert_eq!(strip_ansi("a\u{1b}"), "a");
}

#[test]
fn a_readable_line_stays_as_it_is() {
    let once = readable("x\t\u{1b}[1mbold\u{1b}[0m\u{8} y");
    assert_eq!(once, "x    bold y");
    assert_eq!(readable(&once), once);
}

#[test]
fn a_partial_chunk_of_one_line_shows_nothing() {
    assert_eq!(tail("never ended", true), Vec::<String>::new());
    assert_eq!(tail("", true), Vec::<String>::new());
    assert_eq!(tail("kept\r", false), [""]);
    assert_eq!(tail("kept\r\n", false), ["kept"]);
}

#[test]
fn the_reader_starts_idle() {
    let poller = poll();
    assert_eq!(poller.interval, INTERVAL);
    assert_eq!(poller.requests, [None]);
    assert!(poller.results.is_empty());
}
