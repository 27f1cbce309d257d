use minishell::text::{chars_of, join, parse_usize, push_decimal, same, split_lines};

fn list(words: &[&str]) -> Vec<String> {
    words.iter().map(|w| w.to_string()).collect()
}

#[test]
fn chars_of_a_text() {
    let v = chars_of("héllo ✓");
    assert_eq!(v, vec!['h', 'é', 'l', 'l', 'o', ' ', '✓']);
    assert_eq!(chars_of(""), vec![]);
}

#[test]
fn same_compares_texts() {
    assert!(same("", ""));
    assert!(same("abc", "abc"));
    assert!(!same("abc", "abd"));
    assert!(!same("abc", "ab"));
    assert!(!same("", "a"));
}

#[test]
fn join_puts_the_separator_between() {
    assert_eq!(join(&list(&["a", "b", "c"]), ", "), "a, b, c");
    assert_eq!(join(&list(&["a"]), ", "), "a");
    assert_eq!(join(&list(&[]), ", "), "");
    assert_eq!(join(&list(&["", "", ""]), "-"), "--");
    assert_eq!(join(&list(&["a", "b"]), ""), "ab");
}

#[test]
fn decimal_digits() {
    for n in [0usize, 1, 9, 10, 11, 99, 100, 101, 12345, 65535, usize::MAX] {
        let mut text = String::from("n=");
        push_decimal(&mut text, n);
        assert_eq!(text, format!("n={}", n));
    }
}

#[test]
fn parse_usize_reads_decimal_numbers() {
    assert_eq!(parse_usize("0"), Some(0));
    assert_eq!(parse_usize("42"), Some(42));
    assert_eq!(parse_usize("+42"), Some(42));
    assert_eq!(parse_usize("0042"), Some(42));
    assert_eq!(parse_usize(&usize::MAX.to_string()), Some(usize::MAX));
    assert_eq!(parse_usize("18446744073709551616"), None);
    assert_eq!(parse_usize("99999999999999999999999999999999999999999999"), None);
    assert_eq!(parse_usize(""), None);
    assert_eq!(parse_usize("+"), None);
    assert_eq!(parse_usize("-1"), None);
    assert_eq!(parse_usize("++1"), None);
    assert_eq!(parse_usize("1+"), None);
    assert_eq!(parse_usize("12a"), None);
    assert_eq!(parse_usize(" 12"), None);
}

#[test]
fn parse_usize_agrees_with_the_standard_library() {
    for text in ["", "0", "+0", "-0", "1", "18446744073709551615", "18446744073709551616", "1_0", "٣", "0x10"] {
        assert_eq!(parse_usize(text), text.parse::<usize>().ok());
    }
}

#[test]
fn lines_are_split() {
    assert_eq!(split_lines("a\nb\n"), list(&["a", "b"]));
    assert_eq!(split_lines("a\nb"), list(&["a", "b"]));
    assert_eq!(split_lines("a\r\nb\r\n"), list(&["a", "b"]));
    assert_eq!(split_lines("\n\n"), list(&["", ""]));
}
