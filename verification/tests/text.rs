use lindenmayer::text::{
    after, before, cut_end, cut_start, find_char, find_pair, is_blank, same_text, starts_with,
    to_chars, to_text, trim,
};

#[test]
fn characters_and_back() {
    for case in ["", "a", "héllo wörld", "F -> F+F", "\t\n"] {
        let chars = to_chars(case);
        assert_eq!(chars, case.chars().collect::<Vec<char>>());
        assert_eq!(to_text(&chars), case);
    }
}

#[test]
fn white_space_is_that_of_the_standard_library() {
    for code in 0..=0x10FFFFu32 {
        if let Some(c) = char::from_u32(code) {
            assert_eq!(is_blank(c), c.is_whitespace(), "{:x}", code);
        }
    }
}

#[test]
fn trimming_is_that_of_the_standard_library() {
    for case in ["", " ", "  a  ", "a", "\ta b\r\n", "\u{3000}x\u{a0}", " \u{2003} ", "x ", " x"] {
        let chars = to_chars(case);
        assert_eq!(to_text(trim(&chars)), case.trim());
        assert_eq!(to_text(cut_start(&chars)), case.trim_start());
        assert_eq!(to_text(cut_end(&chars)), case.trim_end());
    }
}

#[test]
fn finding() {
    let chars = to_chars("ab-c->d->");
    assert_eq!(find_char(&chars, '-'), 2);
    assert_eq!(find_char(&chars, 'a'), 0);
    assert_eq!(find_char(&chars, 'z'), chars.len());
    assert_eq!(find_pair(&chars, '-', '>'), 4);
    assert_eq!(find_pair(&chars, '>', 'd'), 5);
    assert_eq!(find_pair(&chars, 'd', 'x'), chars.len());
    assert_eq!(find_pair(&to_chars("-"), '-', '>'), 1);
    assert_eq!(find_pair(&to_chars(""), '-', '>'), 0);
    assert_eq!(find_pair(&to_chars("->"), '-', '>'), 0);
}

#[test]
fn prefixes_and_words() {
    let chars = to_chars("iteration");
    assert!(starts_with(&chars, "iter"));
    assert!(starts_with(&chars, ""));
    assert!(starts_with(&chars, "iteration"));
    assert!(!starts_with(&chars, "iterations"));
    assert!(!starts_with(&chars, "item"));
    assert!(same_text(&chars, "iteration"));
    assert!(!same_text(&chars, "iter"));
    assert!(!same_text(&chars, "iterations"));
    assert!(same_text(&to_chars(""), ""));
}

#[test]
fn parts() {
    let chars = to_chars("abcde");
    assert_eq!(to_text(before(&chars, 2)), "ab");
    assert_eq!(to_text(before(&chars, 0)), "");
    assert_eq!(to_text(before(&chars, 5)), "abcde");
    assert_eq!(to_text(after(&chars, 2)), "cde");
    assert_eq!(to_text(after(&chars, 5)), "");
    assert_eq!(to_text(after(&chars, 9)), "");
}
