use nchctop::text;

#[test]
fn white_space_is_unicodes() {
    for c in '\0'..=char::MAX {
        assert_eq!(text::space(c), c.is_whitespace(), "{c:?}");
        assert_eq!(text::control(c), c.is_control(), "{c:?}");
        assert_eq!(text::digit(c), c.is_ascii_digit(), "{c:?}");
        assert_eq!(text::letter(c), c.is_ascii_alphabetic(), "{c:?}");
    }
}

const SAMPLES: [&str; 12] = [
    "", " ", "a", "a b", " a\tb ", "\u{3000}é\u{a0}", "a|b||c", "||", "a\nb\r\nc", "\n\n",
    "a\r", "one, two, three",
];

#[test]
fn reads_text_the_way_the_standard_library_does() {
    for s in SAMPLES {
        assert_eq!(text::trim(s), s.trim());
        assert_eq!(text::trim_end_matches(s, '|'), s.trim_end_matches('|'));
        assert_eq!(text::trim_start_matches(s, "a"), s.trim_start_matches("a"));
        assert_eq!(text::starts_with(s, "a|"), s.starts_with("a|"));
        assert_eq!(text::strip_prefix(s, "a"), s.strip_prefix("a"));
        assert_eq!(text::split(s, '|'), s.split('|').collect::<Vec<_>>());
        assert_eq!(text::split_once(s, '|'), s.split_once('|'));
        assert_eq!(text::split_once_at(s, ", "), s.split_once(", "));
        assert_eq!(text::rsplit_once_at(s, ", "), s.rsplit_once(", "));
        assert_eq!(text::lines(s), s.lines().collect::<Vec<_>>());
        assert_eq!(text::second_word(s), s.split_whitespace().nth(1));
        assert_eq!(
            text::last_line(s),
            s.lines().map(str::trim).rfind(|line| !line.is_empty()).map(str::to_string)
        );
        for limit in 1..5 {
            assert_eq!(text::splitn(s, '|', limit), s.splitn(limit, '|').collect::<Vec<_>>());
        }
        // Put together again, the pieces are the text.
        assert_eq!(text::split(s, '|').join("|"), s);
        assert_eq!(text::splitn(s, '|', 2).join("|"), s);
        assert_eq!(text::trim(text::trim(s)), text::trim(s));
    }
}

#[test]
fn reads_numbers_the_way_the_standard_library_does() {
    for s in ["", "0", "+7", "-7", "007", "18446744073709551615", "18446744073709551616", "1x", "+", "٣"] {
        assert_eq!(text::parse_unsigned(s, u64::MAX), s.parse::<u64>().ok(), "{s}");
    }
    assert_eq!(text::parse_unsigned("255", 255), Some(255));
    assert_eq!(text::parse_unsigned("256", 255), None);
    assert_eq!(text::parse_unsigned("1000000000000000000000", 255), None);
}

#[test]
fn numbers_read_back() {
    for n in [0, 1, 9, 10, 99, 100, 12345, u64::MAX] {
        assert_eq!(text::decimal(n), n.to_string());
        assert_eq!(text::parse_unsigned(&text::decimal(n), u64::MAX), Some(n));
    }
}

#[test]
fn an_empty_needle_is_found_at_once() {
    assert_eq!(text::split_once_at("ab", ""), "ab".split_once(""));
    assert_eq!(text::rsplit_once_at("ab", ""), "ab".rsplit_once(""));
    assert_eq!(text::split_once_at("é-é-é", "-é"), Some(("é", "-é")));
    assert_eq!(text::rsplit_once_at("é-é-é", "-é"), Some(("é-é", "")));
    assert_eq!(text::trim_start_matches("aa", ""), "aa");
}
