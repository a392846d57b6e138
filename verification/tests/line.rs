use pocky::chars::is_whitespace;
use pocky::line::{is_blank, is_delimiter, split_lines};

/// Every string over `alphabet` of at most `max` characters.
fn strings(alphabet: &[char], max: usize) -> Vec<String> {
    let mut all = vec![String::new()];
    let mut last = vec![String::new()];
    for _ in 0..max {
        let mut next = Vec::new();
        for base in &last {
            for c in alphabet {
                let mut s = base.clone();
                s.push(*c);
                next.push(s);
            }
        }
        all.extend(next.iter().cloned());
        last = next;
    }
    all
}

#[test]
fn two_dashes_are_no_delimiter() {
    assert!(!is_delimiter("--"));
}

#[test]
fn trailing_space_is_no_delimiter() {
    assert!(!is_delimiter("--- "));
}

#[test]
fn three_dashes_are_a_delimiter() {
    assert!(is_delimiter("---"));
}

#[test]
fn delimiter_may_be_wider() {
    assert!(is_delimiter("----"));
    assert!(is_delimiter("------------------------"));
}

#[test]
fn delimiter_holds_dashes_only() {
    assert!(!is_delimiter(""));
    assert!(!is_delimiter("-"));
    assert!(!is_delimiter(" ---"));
    assert!(!is_delimiter("--a"));
    assert!(!is_delimiter("-a-"));
    assert!(!is_delimiter("a--"));
    assert!(!is_delimiter("---\r"));
    assert!(!is_delimiter("==="));
    assert!(!is_delimiter("\u{2014}\u{2014}\u{2014}"));
    assert!(!is_delimiter("- - -"));
}

#[test]
fn delimiter_agrees_with_its_definition() {
    for s in strings(&['-', ' ', 'a'], 5) {
        let expected = s.chars().count() >= 3 && s.chars().all(|c| c == '-');
        assert_eq!(is_delimiter(&s), expected, "{:?}", s);
    }
}

#[test]
fn whitespace_is_the_unicode_property() {
    for code in 0..=0x10FFFFu32 {
        if let Some(c) = char::from_u32(code) {
            assert_eq!(is_whitespace(c), c.is_whitespace(), "U+{:04X}", code);
        }
    }
}

#[test]
fn blank_lines() {
    assert!(is_blank(""));
    assert!(is_blank(" "));
    assert!(is_blank(" \t\r"));
    assert!(is_blank("\u{00A0}\u{3000}"));
    assert!(!is_blank("a"));
    assert!(!is_blank("  a  "));
    assert!(!is_blank("---"));
    assert!(!is_blank("\u{200B}"));
}

#[test]
fn blank_agrees_with_trim() {
    for s in strings(&[' ', '\t', 'a', '\u{2003}'], 4) {
        assert_eq!(is_blank(&s), s.trim().is_empty(), "{:?}", s);
    }
}

#[test]
fn lines_of_plain_text() {
    assert_eq!(split_lines("one\ntwo\nthree"), vec!["one", "two", "three"]);
}

#[test]
fn last_line_ending_is_optional() {
    assert_eq!(split_lines("one\ntwo\n"), vec!["one", "two"]);
    assert_eq!(split_lines("one\ntwo"), vec!["one", "two"]);
}

#[test]
fn empty_text_has_no_lines() {
    assert_eq!(split_lines(""), Vec::<String>::new());
}

#[test]
fn empty_lines_are_kept() {
    assert_eq!(split_lines("\n"), vec![""]);
    assert_eq!(split_lines("\n\n"), vec!["", ""]);
    assert_eq!(split_lines("a\n\nb"), vec!["a", "", "b"]);
}

#[test]
fn carriage_return_belongs_to_the_line_ending() {
    assert_eq!(split_lines("foo\nbar\n\r\nbaz\r"), vec!["foo", "bar", "", "baz\r"]);
    assert_eq!(split_lines("a\r\nb\r\n"), vec!["a", "b"]);
    assert_eq!(split_lines("a\rb\n"), vec!["a\rb"]);
    assert_eq!(split_lines("a\r\r\n"), vec!["a\r"]);
}

#[test]
fn lines_agree_with_std() {
    for s in strings(&['a', '\n', '\r', ' ', '-'], 6) {
        let expected: Vec<String> = s.lines().map(|line| line.to_string()).collect();
        assert_eq!(split_lines(&s), expected, "{:?}", s);
    }
}

#[test]
fn lines_keep_other_characters() {
    assert_eq!(split_lines("h\u{00E9}llo \u{4E16}\u{754C}\n\u{1F600}"), vec![
        "h\u{00E9}llo \u{4E16}\u{754C}",
        "\u{1F600}"
    ]);
}
