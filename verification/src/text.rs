//! Conversions between strings and sequences of characters, on which the
//! rest of the crate states its contracts.

use vstd::prelude::*;

verus! {

/// `String::push` appends one character to the end of the string.
pub assume_specification[ String::push ](s: &mut String, c: char)
    ensures
        final(s)@ == old(s)@.push(c),
;

/// `String::push_str` appends the given text to the end of the string.
pub assume_specification[ String::push_str ](s: &mut String, other: &str)
    ensures
        final(s)@ == old(s)@ + other@,
;

/// The characters of `s`, in order.
pub fn chars_of(s: &str) -> (v: Vec<char>)
    ensures
        v@ == s@,
{
    let mut v: Vec<char> = Vec::new();
    for c in it: s.chars()
        invariant
            v@ == it.seq().take(it.index()),
    {
        v.push(c);
    }
    v
}

/// The string made of the characters `v[from..to]`.
pub(crate) fn string_of(v: &Vec<char>, from: usize, to: usize) -> (s: String)
    requires
        from <= to <= v.len(),
    ensures
        s@ == v@.subrange(from as int, to as int),
{
    let mut s = String::new();
    let mut i: usize = from;
    while i < to
        invariant
            from <= i <= to <= v.len(),
            s@ == v@.subrange(from as int, i as int),
        decreases to - i,
    {
        s.push(v[i]);
        i += 1;
    }
    s
}

/// The first position at or after `from` that holds `c`, or the length of
/// `s` where there is none.
pub open spec fn index_of(s: Seq<char>, from: int, c: char) -> int
    decreases s.len() - from,
{
    if from < 0 || from >= s.len() {
        s.len() as int
    } else if s[from] == c {
        from
    } else {
        index_of(s, from + 1, c)
    }
}

/// Positions that do not hold `c` can be skipped when looking for `c`.
pub proof fn lemma_index_of_skip(s: Seq<char>, from: int, to: int, c: char)
    requires
        0 <= from <= to <= s.len(),
        forall|k: int| from <= k < to ==> s[k] != c,
    ensures
        index_of(s, from, c) == index_of(s, to, c),
    decreases to - from,
{
    if from < to {
        lemma_index_of_skip(s, from + 1, to, c);
    }
}

/// What is found lies at or after where the search starts, within `s`, and
/// nothing before it holds `c`.
pub proof fn lemma_index_of_bounds(s: Seq<char>, from: int, c: char)
    requires
        0 <= from <= s.len(),
    ensures
        from <= index_of(s, from, c) <= s.len(),
        index_of(s, from, c) < s.len() ==> s[index_of(s, from, c)] == c,
        forall|k: int| from <= k < index_of(s, from, c) ==> s[k] != c,
    decreases s.len() - from,
{
    if from < s.len() && s[from] != c {
        lemma_index_of_bounds(s, from + 1, c);
    }
}

/// Whether `c` occurs in `s`.
pub open spec fn has_char(s: Seq<char>, c: char) -> bool {
    exists|k: int| 0 <= k < s.len() && s[k] == c
}

/// `line` without the carriage return at its end, if it has one.
pub open spec fn strip_cr(line: Seq<char>) -> Seq<char> {
    if line.len() > 0 && line.last() == '\r' {
        line.drop_last()
    } else {
        line
    }
}

#[via_fn]
proof fn lines_from_terminates(s: Seq<char>, i: int) {
    if 0 <= i < s.len() {
        lemma_index_of_bounds(s, i, '\n');
    }
}

/// The lines of `s` from position `i` on. A line ends at a line feed, or at
/// a carriage return followed by a line feed; neither belongs to the line.
/// What follows the last line feed is a line too, unless it is empty.
pub open spec fn lines_from(s: Seq<char>, i: int) -> Seq<Seq<char>>
    decreases s.len() - i,
    via lines_from_terminates
{
    if i < 0 || i >= s.len() {
        Seq::empty()
    } else {
        let end = index_of(s, i, '\n');
        if end >= s.len() {
            seq![s.subrange(i, s.len() as int)]
        } else {
            seq![strip_cr(s.subrange(i, end))] + lines_from(s, end + 1)
        }
    }
}

/// The lines of `s`.
pub open spec fn lines_of(s: Seq<char>) -> Seq<Seq<char>> {
    lines_from(s, 0)
}

/// The text that holds each of `lines` followed by a line feed.
pub open spec fn unlines(lines: Seq<Seq<char>>) -> Seq<char>
    decreases lines.len(),
{
    if lines.len() == 0 {
        Seq::empty()
    } else {
        lines[0] + seq!['\n'] + unlines(lines.drop_first())
    }
}

/// A line that comes back unchanged when it is written and read again: it
/// holds no line feed and does not end in a carriage return.
pub open spec fn plain_line(line: Seq<char>) -> bool {
    !has_char(line, '\n') && !(line.len() > 0 && line.last() == '\r')
}

/// Adding a line at the end adds it, and a line feed, to the text.
pub proof fn lemma_unlines_push(lines: Seq<Seq<char>>, line: Seq<char>)
    ensures
        unlines(lines.push(line)) == unlines(lines) + line + seq!['\n'],
    decreases lines.len(),
{
    if lines.len() == 0 {
        assert(lines.push(line).drop_first() =~= Seq::<Seq<char>>::empty());
        assert(unlines(lines.push(line).drop_first()) =~= Seq::<char>::empty());
        assert(unlines(lines) =~= Seq::<char>::empty());
        assert(unlines(lines.push(line)) =~= unlines(lines) + line + seq!['\n']);
    } else {
        assert(lines.push(line).drop_first() =~= lines.drop_first().push(line));
        lemma_unlines_push(lines.drop_first(), line);
        assert(unlines(lines.push(line)) =~= unlines(lines) + line + seq!['\n']);
    }
}

/// Reading the lines of a text that was written from plain lines, after any
/// prefix, gives those lines back.
pub proof fn lemma_lines_after_prefix(prefix: Seq<char>, lines: Seq<Seq<char>>)
    requires
        forall|k: int| 0 <= k < lines.len() ==> plain_line(#[trigger] lines[k]),
    ensures
        lines_from(prefix + unlines(lines), prefix.len() as int) == lines,
    decreases lines.len(),
{
    let text = prefix + unlines(lines);
    let at = prefix.len() as int;
    if lines.len() == 0 {
        assert(text =~= prefix);
        assert(lines_from(text, at) =~= lines);
    } else {
        let first = lines[0];
        let rest = lines.drop_first();
        let end = at + first.len();
        assert(plain_line(first));
        assert forall|k: int| at <= k < end implies text[k] != '\n' by {
            assert(text[k] == first[k - at]);
        }
        lemma_index_of_skip(text, at, end, '\n');
        assert(text[end] == '\n');
        assert(index_of(text, at, '\n') == end);
        assert(text.subrange(at, end) =~= first);
        let longer = prefix + first + seq!['\n'];
        assert(text =~= longer + unlines(rest));
        assert forall|k: int| 0 <= k < rest.len() implies plain_line(#[trigger] rest[k]) by {
            assert(rest[k] == lines[k + 1]);
        }
        lemma_lines_after_prefix(longer, rest);
        assert(lines_from(text, at) =~= seq![first] + rest);
        assert(seq![first] + rest =~= lines);
    }
}

/// Writing plain lines and reading the text again gives the same lines, in
/// the same order.
pub proof fn lemma_lines_of_unlines(lines: Seq<Seq<char>>)
    requires
        forall|k: int| 0 <= k < lines.len() ==> plain_line(#[trigger] lines[k]),
    ensures
        lines_of(unlines(lines)) == lines,
{
    lemma_lines_after_prefix(Seq::empty(), lines);
    assert(Seq::<char>::empty() + unlines(lines) =~= unlines(lines));
}

/// The lines of `content`, as `str::lines` gives them.
pub fn split_lines(content: &str) -> (lines: Vec<String>)
    ensures
        lines.deep_view() == lines_of(content@),
{
    let chars = chars_of(content);
    let n = chars.len();
    let mut lines: Vec<String> = Vec::new();
    let mut start: usize = 0;
    assert(lines.deep_view() + lines_from(chars@, 0) =~= lines_of(chars@));
    while start < n
        invariant
            n == chars.len(),
            start <= n,
            chars@ == content@,
            lines.deep_view() + lines_from(chars@, start as int) == lines_of(chars@),
        decreases n - start,
    {
        let mut end = start;
        while end < n && chars[end] != '\n'
            invariant
                n == chars.len(),
                start <= end <= n,
                forall|k: int| start <= k < end ==> chars@[k] != '\n',
            decreases n - end,
        {
            end += 1;
        }
        proof {
            lemma_index_of_skip(chars@, start as int, end as int, '\n');
        }
        let ghost before = lines.deep_view();
        let stop = if end < n && end > start && chars[end - 1] == '\r' {
            end - 1
        } else {
            end
        };
        let line = string_of(&chars, start, stop);
        proof {
            if end < n {
                assert(line@ =~= strip_cr(chars@.subrange(start as int, end as int)));
            }
        }
        lines.push(line);
        assert(lines.deep_view() =~= before.push(line@));
        proof {
            let next = if end < n {
                end + 1
            } else {
                n as int
            };
            assert(before.push(line@) + lines_from(chars@, next) =~= before + lines_from(
                chars@,
                start as int,
            ));
        }
        start = if end < n {
            end + 1
        } else {
            n
        };
    }
    assert(lines.deep_view() + Seq::<Seq<char>>::empty() =~= lines.deep_view());
    lines
}

/// The text that holds each of the lines `lines[from..]` followed by a line
/// feed.
pub(crate) fn join_lines(lines: &Vec<String>, from: usize) -> (text: String)
    requires
        from <= lines.len(),
    ensures
        text@ == unlines(lines.deep_view().subrange(from as int, lines.len() as int)),
{
    let mut text = String::new();
    let mut i: usize = from;
    assert(lines.deep_view().subrange(from as int, from as int) =~= Seq::<Seq<char>>::empty());
    while i < lines.len()
        invariant
            from <= i <= lines.len(),
            text@ == unlines(lines.deep_view().subrange(from as int, i as int)),
        decreases lines.len() - i,
    {
        proof {
            let done = lines.deep_view().subrange(from as int, i as int);
            lemma_unlines_push(done, lines[i as int]@);
            assert(done.push(lines[i as int]@) =~= lines.deep_view().subrange(
                from as int,
                i + 1,
            ));
        }
        text.push_str(lines[i].as_str());
        text.push('\n');
        i += 1;
    }
    text
}

/// Whether the two texts hold the same characters.
pub fn same(a: &str, b: &str) -> (r: bool)
    ensures
        r == (a@ == b@),
{
    let x = chars_of(a);
    let y = chars_of(b);
    if x.len() != y.len() {
        return false;
    }
    let mut i: usize = 0;
    while i < x.len()
        invariant
            i <= x.len() == y.len(),
            x@ == a@,
            y@ == b@,
            forall|k: int| 0 <= k < i ==> x@[k] == y@[k],
        decreases x.len() - i,
    {
        if x[i] != y[i] {
            return false;
        }
        i += 1;
    }
    assert(x@ =~= y@);
    true
}

/// The words joined into one text, with `sep` between each two.
pub open spec fn joined(words: Seq<Seq<char>>, sep: Seq<char>) -> Seq<char>
    decreases words.len(),
{
    if words.len() == 0 {
        Seq::empty()
    } else if words.len() == 1 {
        words[0]
    } else {
        joined(words.drop_last(), sep) + sep + words.last()
    }
}

/// The words joined into one text, with `sep` between each two.
pub fn join(words: &Vec<String>, sep: &str) -> (text: String)
    ensures
        text@ == joined(words.deep_view(), sep@),
{
    let mut text = String::new();
    let mut i: usize = 0;
    assert(words.deep_view().take(0) =~= Seq::<Seq<char>>::empty());
    while i < words.len()
        invariant
            i <= words.len(),
            text@ == joined(words.deep_view().take(i as int), sep@),
        decreases words.len() - i,
    {
        let ghost done = words.deep_view().take(i as int);
        let ghost more = words.deep_view().take(i + 1);
        assert(more.drop_last() =~= done);
        assert(more.last() == words[i as int]@);
        if i > 0 {
            text.push_str(sep);
        } else {
            assert(text@ + words[i as int]@ =~= words[i as int]@);
        }
        text.push_str(words[i].as_str());
        i += 1;
    }
    assert(words.deep_view().take(i as int) =~= words.deep_view());
    text
}

/// The character that stands for the digit `d`.
pub open spec fn digit_char(d: int) -> char {
    if d == 0 {
        '0'
    } else if d == 1 {
        '1'
    } else if d == 2 {
        '2'
    } else if d == 3 {
        '3'
    } else if d == 4 {
        '4'
    } else if d == 5 {
        '5'
    } else if d == 6 {
        '6'
    } else if d == 7 {
        '7'
    } else if d == 8 {
        '8'
    } else {
        '9'
    }
}

/// `n` written in decimal, without leading zeros.
pub open spec fn decimal(n: nat) -> Seq<char>
    decreases n,
{
    if n < 10 {
        seq![digit_char(n as int)]
    } else {
        decimal(n / 10).push(digit_char((n % 10) as int))
    }
}

fn digit(d: usize) -> (c: char)
    requires
        d < 10,
    ensures
        c == digit_char(d as int),
{
    if d == 0 {
        '0'
    } else if d == 1 {
        '1'
    } else if d == 2 {
        '2'
    } else if d == 3 {
        '3'
    } else if d == 4 {
        '4'
    } else if d == 5 {
        '5'
    } else if d == 6 {
        '6'
    } else if d == 7 {
        '7'
    } else if d == 8 {
        '8'
    } else {
        '9'
    }
}

/// Adds `n`, written in decimal, to the end of `text`.
pub fn push_decimal(text: &mut String, n: usize)
    ensures
        final(text)@ == old(text)@ + decimal(n as nat),
    decreases n,
{
    if n >= 10 {
        push_decimal(text, n / 10);
    }
    text.push(digit(n % 10));
    assert(final(text)@ =~= old(text)@ + decimal(n as nat));
}

/// Whether `c` is one of the ten digits.
pub open spec fn is_digit(c: char) -> bool {
    c == '0' || c == '1' || c == '2' || c == '3' || c == '4' || c == '5' || c == '6' || c == '7'
        || c == '8' || c == '9'
}

/// The digit that `c` stands for.
pub open spec fn digit_value(c: char) -> nat {
    if c == '1' {
        1
    } else if c == '2' {
        2
    } else if c == '3' {
        3
    } else if c == '4' {
        4
    } else if c == '5' {
        5
    } else if c == '6' {
        6
    } else if c == '7' {
        7
    } else if c == '8' {
        8
    } else if c == '9' {
        9
    } else {
        0
    }
}

/// Whether every character of `s` is a digit.
pub open spec fn all_digits(s: Seq<char>) -> bool {
    forall|k: int| 0 <= k < s.len() ==> is_digit(#[trigger] s[k])
}

/// The number that the digits `s` write in decimal.
pub open spec fn digits_value(s: Seq<char>) -> nat
    decreases s.len(),
{
    if s.len() == 0 {
        0
    } else {
        digits_value(s.drop_last()) * 10 + digit_value(s.last())
    }
}

/// The number that `s` writes: one or more digits, after a `+` or nothing.
pub open spec fn parse_number(s: Seq<char>) -> Option<nat> {
    let body = if s.len() > 0 && s[0] == '+' {
        s.drop_first()
    } else {
        s
    };
    if body.len() > 0 && all_digits(body) {
        Some(digits_value(body))
    } else {
        None
    }
}

/// The integer that `s` writes: one or more digits, after a `+`, a `-` or
/// nothing.
pub open spec fn parse_integer(s: Seq<char>) -> Option<int> {
    if s.len() > 0 && s[0] == '-' {
        let body = s.drop_first();
        if body.len() > 0 && all_digits(body) {
            Some(-(digits_value(body) as int))
        } else {
            None
        }
    } else {
        match parse_number(s) {
            Some(v) => Some(v as int),
            None => None,
        }
    }
}

/// More digits never write a smaller number.
pub proof fn lemma_digits_value_grows(s: Seq<char>, k: int)
    requires
        0 <= k <= s.len(),
    ensures
        digits_value(s.take(k)) <= digits_value(s),
    decreases s.len() - k,
{
    if k < s.len() {
        lemma_digits_value_grows(s, k + 1);
        assert(s.take(k + 1).drop_last() =~= s.take(k));
    } else {
        assert(s.take(k) =~= s);
    }
}

fn digit_of(c: char) -> (d: Option<u128>)
    ensures
        is_digit(c) ==> d == Some(digit_value(c) as u128),
        !is_digit(c) ==> d.is_none(),
{
    if c == '0' {
        Some(0)
    } else if c == '1' {
        Some(1)
    } else if c == '2' {
        Some(2)
    } else if c == '3' {
        Some(3)
    } else if c == '4' {
        Some(4)
    } else if c == '5' {
        Some(5)
    } else if c == '6' {
        Some(6)
    } else if c == '7' {
        Some(7)
    } else if c == '8' {
        Some(8)
    } else if c == '9' {
        Some(9)
    } else {
        None
    }
}

/// The number that the digits `chars[from..]` write, where there is at
/// least one, all are digits, and the number is at most `limit`.
fn digits_up_to(chars: &Vec<char>, from: usize, limit: u128) -> (r: Option<u128>)
    requires
        from <= chars.len(),
        limit <= u128::MAX / 16,
    ensures
        ({
            let body = chars@.subrange(from as int, chars.len() as int);
            r == if body.len() > 0 && all_digits(body) && digits_value(body) <= limit {
                Some(digits_value(body) as u128)
            } else {
                None::<u128>
            }
        }),
{
    let ghost body = chars@.subrange(from as int, chars.len() as int);
    if from == chars.len() {
        return None;
    }
    let mut value: u128 = 0;
    let mut i: usize = from;
    assert(body.take(0) =~= Seq::<char>::empty());
    while i < chars.len()
        invariant
            from <= i <= chars.len(),
            limit <= u128::MAX / 16,
            body == chars@.subrange(from as int, chars.len() as int),
            all_digits(body.take(i - from)),
            value == digits_value(body.take(i - from)),
            value <= limit,
        decreases chars.len() - i,
    {
        let ghost done = body.take(i - from);
        let ghost more = body.take(i - from + 1);
        assert(more.drop_last() =~= done);
        assert(more.last() == chars@[i as int]);
        match digit_of(chars[i]) {
            None => {
                assert(!is_digit(body[i - from]));
                return None;
            },
            Some(d) => {
                assert forall|k: int| 0 <= k < more.len() implies is_digit(#[trigger] more[k]) by {
                    if k < done.len() {
                        assert(more[k] == done[k]);
                    }
                }
                let next = value * 10 + d;
                if next > limit {
                    proof {
                        lemma_digits_value_grows(body, i - from + 1);
                        assert(digits_value(more) == next);
                    }
                    return None;
                }
                value = next;
            },
        }
        i += 1;
    }
    assert(body.take(i - from) =~= body);
    Some(value)
}

/// The number that `s` writes in decimal, if it writes one that fits.
pub fn parse_usize(s: &str) -> (r: Option<usize>)
    ensures
        r == match parse_number(s@) {
            Some(v) => if v <= usize::MAX {
                Some(v as usize)
            } else {
                None
            },
            None => None::<usize>,
        },
{
    let chars = chars_of(s);
    let from: usize = if chars.len() > 0 && chars[0] == '+' {
        1
    } else {
        0
    };
    assert(from == 1 ==> chars@.subrange(1, chars.len() as int) =~= s@.drop_first());
    assert(from == 0 ==> chars@.subrange(0, chars.len() as int) =~= s@);
    match digits_up_to(&chars, from, usize::MAX as u128) {
        Some(v) => Some(v as usize),
        None => None,
    }
}

} // verus!
