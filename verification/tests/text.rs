use stayawake::fixed::{decimal_string, read_number};
use stayawake::tally;
use stayawake::text::{
    chars_of, dec_string, eq_ignore_case, find_char, has_prefix, join_strings, lines_of,
    push_left_padded, push_right_padded, read_u64, string_of, to_lower, trimmed, trimmed_end,
    trimmed_start, white,
};

fn read(s: &str) -> Option<u64> {
    read_u64(&chars_of(s))
}

#[test]
fn white_space_is_that_of_unicode() {
    for code in 0..0x3100u32 {
        if let Some(c) = char::from_u32(code) {
            assert_eq!(white(c), c.is_whitespace(), "U+{:04X}", code);
        }
    }
    let s = chars_of("\u{3000} a b\t\r\n");
    assert_eq!(string_of(trimmed(&s)), "a b");
    assert_eq!(string_of(trimmed_start(&s)), "a b\t\r\n");
    assert_eq!(string_of(trimmed_end(&s)), "\u{3000} a b");
}

#[test]
fn only_ascii_letters_have_two_cases() {
    assert_eq!(string_of(&to_lower(&chars_of("ÄBc-Ω"))), "Äbc-Ω");
    assert!(eq_ignore_case("IDMan.EXE", "idman.exe"));
    assert!(!eq_ignore_case("Ä", "ä"));
    assert!(!eq_ignore_case("a", "ab"));
}

#[test]
fn lines_end_at_line_feeds() {
    for s in ["", "a", "a\n", "a\r\nb", "\n\n", "a\r", "x\n\ny\r\n"] {
        let lines: Vec<String> = lines_of(&chars_of(s)).iter().map(|l| string_of(l)).collect();
        assert_eq!(lines, s.lines().map(String::from).collect::<Vec<_>>(), "{:?}", s);
    }
    let parts = vec!["a".to_string(), "".to_string(), "b".to_string()];
    assert_eq!(join_strings(&parts, ", "), "a, , b");
    assert_eq!(join_strings(&vec![], ", "), "");
}

#[test]
fn searching_finds_the_first() {
    let s = chars_of("k=v=w");
    assert_eq!(find_char(&s, '='), 1);
    assert_eq!(find_char(&s, '#'), 5);
    assert!(has_prefix(&s, &chars_of("k=")));
    assert!(!has_prefix(&s, &chars_of("k=v=w=")));
}

/// Numbers read back as they were written.
#[test]
fn whole_numbers_round_trip() {
    for n in [0, 1, 9, 10, 99, 1_000_000, u64::MAX] {
        assert_eq!(dec_string(n as u128), n.to_string());
        assert_eq!(read(&n.to_string()), Some(n));
    }
    assert_eq!(read("+7"), Some(7));
    assert_eq!(read("007"), Some(7));
    for bad in ["", "+", "-1", "1.0", " 1", "18446744073709551616", "x"] {
        assert_eq!(read(bad), bad.parse::<u64>().ok(), "{:?}", bad);
    }
}

#[test]
fn padding_fills_up_to_the_width() {
    let mut s = String::new();
    push_right_padded(&mut s, "ab", 4);
    push_left_padded(&mut s, "cd", '.', 4);
    push_left_padded(&mut s, "longer", '.', 4);
    assert_eq!(s, "ab  ..cdlonger");
}

#[test]
fn fractions_are_rounded_to_even_halves() {
    assert_eq!(decimal_string(3, 2, 0), "2");
    assert_eq!(decimal_string(5, 2, 0), "2");
    assert_eq!(decimal_string(1, 8, 2), "0.12");
    assert_eq!(decimal_string(3, 8, 2), "0.38");
    assert_eq!(decimal_string(2, 3, 3), "0.667");
    assert_eq!(decimal_string(999, 1000, 1), "1.0");
    assert!(read_number(&chars_of("0.5")).is_some());
    assert!(read_number(&chars_of("half")).is_none());
}

/// Rows stay in order and no name is there twice.
#[test]
fn tallies_are_kept_in_order() {
    let mut rows: Vec<(String, u128)> = Vec::new();
    for (name, v) in [("b", 1), ("a", 2), ("网", 3), ("b", 4), ("B", 5)] {
        tally::put(&mut rows, name, v);
    }
    let told: Vec<(&str, u128)> = rows.iter().map(|r| (r.0.as_str(), r.1)).collect();
    assert_eq!(told, vec![("B", 5), ("a", 2), ("b", 4), ("网", 3)]);
    assert_eq!(tally::get(&rows, "b", 0), 4);
    assert_eq!(tally::get(&rows, "c", 9), 9);
}
