use vrename::text::{is_ascii_space, parse_names, render_names};

fn owned(names: &[&str]) -> Vec<String> {
    names.iter().map(|name| name.to_string()).collect()
}

#[test]
fn ascii_whitespace_is_five_characters() {
    for c in [' ', '\t', '\n', '\x0C', '\r'] {
        assert!(is_ascii_space(c));
    }
    for c in ['\x0B', '\u{a0}', '\u{2003}', 'a', '0', '\0', '_'] {
        assert!(!is_ascii_space(c));
    }
}

#[test]
fn parse_reads_one_name_per_line() {
    assert_eq!(owned(&["test1", "test2", "test3"]), parse_names("test1\ntest2\ntest3\n"));
}

#[test]
fn parse_reads_a_last_line_without_line_feed() {
    assert_eq!(owned(&["a", "b"]), parse_names("a\nb"));
    assert_eq!(owned(&["a"]), parse_names("a"));
}

#[test]
fn parse_of_an_empty_text_is_empty() {
    assert!(parse_names("").is_empty());
    assert!(parse_names("\n").is_empty());
    assert!(parse_names("\n\n\n").is_empty());
}

#[test]
fn parse_trims_each_line() {
    assert_eq!(owned(&["a", "b c", "d"]), parse_names("  a\t\n\x0Cb c \r\n\r d\r"));
}

#[test]
fn parse_keeps_whitespace_inside_a_name() {
    assert_eq!(owned(&["a  \t b"]), parse_names(" a  \t b \n"));
}

#[test]
fn parse_drops_lines_of_whitespace() {
    assert_eq!(owned(&["a", "b"]), parse_names("\n \na\n\t\r\n\x0C\nb\n  "));
    assert!(parse_names(" \t\r\x0C").is_empty());
}

#[test]
fn parse_trims_ascii_whitespace_only() {
    assert_eq!(owned(&["\x0Ba\x0B"]), parse_names(" \x0Ba\x0B \n"));
    assert_eq!(owned(&["\u{a0}b\u{a0}"]), parse_names("\u{a0}b\u{a0}\n"));
    assert_eq!(owned(&["\u{2003}"]), parse_names("\u{2003}\n"));
}

#[test]
fn parse_reads_names_beyond_ascii() {
    assert_eq!(
        owned(&["caf\u{e9}.txt", "\u{65e5}\u{672c}\u{8a9e}", "\u{1f600} x"]),
        parse_names("caf\u{e9}.txt\n \u{65e5}\u{672c}\u{8a9e} \n\u{1f600} x\n")
    );
}

#[test]
fn a_blank_line_changes_no_name() {
    let with = parse_names("a\n \t \nb\n");
    let without = parse_names("a\nb\n");
    assert_eq!(without, with);
    assert_eq!(parse_names("a\nb"), parse_names("a\nb\n \n\n\t"));
}

#[test]
fn a_line_feed_splits_a_text_in_two() {
    let before = "a\n b";
    let after = "c \n\nd\n";
    let whole = format!("{}\n{}", before, after);
    let mut expected = parse_names(before);
    expected.extend(parse_names(after));
    assert_eq!(expected, parse_names(&whole));
    assert_eq!(owned(&["a", "b", "c", "d"]), expected);
}

#[test]
fn parsed_names_are_plain() {
    for name in parse_names("  a \n\n b c\t\r\n \n\x0Cd") {
        assert!(!name.is_empty());
        assert!(!name.contains('\n'));
        assert!(!is_ascii_space(name.chars().next().unwrap()));
        assert!(!is_ascii_space(name.chars().last().unwrap()));
    }
}

#[test]
fn render_ends_each_name_with_a_line_feed() {
    assert_eq!("a\nb c\n", render_names(&owned(&["a", "b c"])));
    assert_eq!("x\n", render_names(&owned(&["x"])));
    assert_eq!("", render_names(&[]));
}

#[test]
fn render_keeps_names_as_they_are() {
    assert_eq!(" a \n\n\u{e9}\n", render_names(&owned(&[" a ", "", "\u{e9}"])));
}

#[test]
fn rendered_plain_names_parse_back() {
    let names = owned(&["one", "two words", "\u{fc}ber", "x"]);
    assert_eq!(names, parse_names(&render_names(&names)));
}
