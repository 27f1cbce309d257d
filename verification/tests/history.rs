use minishell::history::History;

fn s(text: &str) -> String {
    text.to_string()
}

fn entries(h: &History) -> Vec<String> {
    (0..h.len()).map(|i| h.get(i).unwrap().clone()).collect()
}

#[test]
fn navigation_walks_back_and_forth() {
    let mut h = History::new();
    h.add(s("ls"));
    h.add(s("pwd"));
    assert_eq!(h.prev(), Some(&s("pwd")));
    assert_eq!(h.prev(), Some(&s("ls")));
    assert_eq!(h.next(), Some(&s("pwd")));
}

#[test]
fn write_then_read_reproduces_the_entries() {
    let mut h = History::new();
    h.add(s("ls -l"));
    h.add(s("echo 'a b'"));
    h.add(s(""));
    h.add(s("cat f | wc"));
    let text = h.file_text();
    assert_eq!(text, "ls -l\necho 'a b'\n\ncat f | wc\n");
    let mut fresh = History::new();
    fresh.read_lines(&text);
    assert_eq!(entries(&fresh), entries(&h));
}

#[test]
fn empty_store_writes_an_empty_file_and_reads_back_empty() {
    let h = History::new();
    assert_eq!(h.file_text(), "");
    let mut fresh = History::new();
    fresh.read_lines(&h.file_text());
    assert_eq!(fresh.len(), 0);
}

#[test]
fn empty_store_has_nothing_to_navigate() {
    let mut h = History::new();
    assert_eq!(h.len(), 0);
    assert_eq!(h.prev(), None);
    assert_eq!(h.next(), None);
    assert_eq!(h.get(0), None);
}

#[test]
fn default_store_is_empty() {
    let h = History::default();
    assert_eq!(h.len(), 0);
}

#[test]
fn prev_saturates_at_the_oldest() {
    let mut h = History::new();
    h.add(s("a"));
    h.add(s("b"));
    assert_eq!(h.prev(), Some(&s("b")));
    assert_eq!(h.prev(), Some(&s("a")));
    assert_eq!(h.prev(), Some(&s("a")));
    assert_eq!(h.prev(), Some(&s("a")));
}

#[test]
fn next_saturates_at_the_newest() {
    let mut h = History::new();
    h.add(s("a"));
    h.add(s("b"));
    h.prev();
    h.prev();
    assert_eq!(h.next(), Some(&s("b")));
    assert_eq!(h.next(), Some(&s("b")));
}

#[test]
fn next_without_cursor_gives_nothing() {
    let mut h = History::new();
    h.add(s("a"));
    assert_eq!(h.next(), None);
    assert_eq!(h.prev(), Some(&s("a")));
}

#[test]
fn add_resets_the_cursor() {
    let mut h = History::new();
    h.add(s("a"));
    h.add(s("b"));
    h.prev();
    h.prev();
    h.add(s("c"));
    assert_eq!(h.next(), None);
    assert_eq!(h.prev(), Some(&s("c")));
    assert_eq!(h.len(), 3);
}

#[test]
fn read_lines_appends_after_existing_entries() {
    let mut h = History::new();
    h.add(s("first"));
    h.read_lines("second\nthird\n");
    assert_eq!(entries(&h), vec![s("first"), s("second"), s("third")]);
}

#[test]
fn read_lines_handles_line_endings() {
    let mut h = History::new();
    h.read_lines("a\r\nb\n\nc");
    assert_eq!(entries(&h), vec![s("a"), s("b"), s(""), s("c")]);
    let mut h = History::new();
    h.read_lines("a\rb\r");
    assert_eq!(entries(&h), vec![s("a\rb\r")]);
    let mut h = History::new();
    h.read_lines("");
    assert_eq!(h.len(), 0);
    let mut h = History::new();
    h.read_lines("\n");
    assert_eq!(entries(&h), vec![s("")]);
}

#[test]
fn read_lines_agrees_with_the_standard_library() {
    for text in ["", "\n", "a", "a\n", "a\n\n", "\r\n", "a\r\n\r\nb", "x\ry\n", "\r", "a\n\r"] {
        let mut h = History::new();
        h.read_lines(text);
        let expected: Vec<String> = text.lines().map(|l| l.to_string()).collect();
        assert_eq!(entries(&h), expected);
    }
}

#[test]
fn read_lines_keeps_the_cursor_when_nothing_is_read() {
    let mut h = History::new();
    h.add(s("a"));
    h.add(s("b"));
    h.prev();
    h.prev();
    h.read_lines("");
    assert_eq!(h.next(), Some(&s("b")));
    h.prev();
    h.read_lines("c\n");
    assert_eq!(h.next(), None);
}

#[test]
fn pending_text_holds_only_what_was_added_since() {
    let mut h = History::new();
    h.add(s("a"));
    h.add(s("b"));
    assert_eq!(h.pending_text(), "a\nb\n");
    assert_eq!(h.pending_text(), "");
    h.add(s("c"));
    assert_eq!(h.pending_text(), "c\n");
    assert_eq!(h.file_text(), "a\nb\nc\n");
}

#[test]
fn a_line_with_a_line_feed_does_not_come_back_as_one_line() {
    let mut h = History::new();
    h.add(s("a\nb"));
    let mut fresh = History::new();
    fresh.read_lines(&h.file_text());
    assert_eq!(entries(&fresh), vec![s("a"), s("b")]);
}
