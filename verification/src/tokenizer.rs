//! The scanner: a line of text becomes a sequence of tokens.

use crate::text::{chars_of, index_of, lemma_index_of_skip};
use vstd::prelude::*;

verus! {

/// One token of a command line.
#[derive(Debug, PartialEq, Eq)]
pub enum Token {
    /// `&`
    Ampersand,
    /// `>`
    Greater,
    /// A word, after its quotes and escapes have been resolved.
    Literal(String),
    /// `1>`
    OneGreater,
    /// `|`
    Pipe,
    /// `2>`
    TwoGreater,
    /// `0>`
    ZeroGreater,
    /// `>>`
    DoubleGreater,
    /// `1>>`
    OneDoubleGreater,
    /// `2>>`
    TwoDoubleGreater,
    /// `0>>`
    ZeroDoubleGreater,
}

/// The mathematical value of a [`Token`].
pub enum TokenView {
    Ampersand,
    Greater,
    Literal(Seq<char>),
    OneGreater,
    Pipe,
    TwoGreater,
    ZeroGreater,
    DoubleGreater,
    OneDoubleGreater,
    TwoDoubleGreater,
    ZeroDoubleGreater,
}

impl View for Token {
    type V = TokenView;

    open spec fn view(&self) -> TokenView {
        match self {
            Token::Ampersand => TokenView::Ampersand,
            Token::Greater => TokenView::Greater,
            Token::Literal(s) => TokenView::Literal(s@),
            Token::OneGreater => TokenView::OneGreater,
            Token::Pipe => TokenView::Pipe,
            Token::TwoGreater => TokenView::TwoGreater,
            Token::ZeroGreater => TokenView::ZeroGreater,
            Token::DoubleGreater => TokenView::DoubleGreater,
            Token::OneDoubleGreater => TokenView::OneDoubleGreater,
            Token::TwoDoubleGreater => TokenView::TwoDoubleGreater,
            Token::ZeroDoubleGreater => TokenView::ZeroDoubleGreater,
        }
    }
}

impl Clone for Token {
    fn clone(&self) -> (t: Token)
        ensures
            t@ == self@,
    {
        match self {
            Token::Ampersand => Token::Ampersand,
            Token::Greater => Token::Greater,
            Token::Literal(s) => Token::Literal(s.clone()),
            Token::OneGreater => Token::OneGreater,
            Token::Pipe => Token::Pipe,
            Token::TwoGreater => Token::TwoGreater,
            Token::ZeroGreater => Token::ZeroGreater,
            Token::DoubleGreater => Token::DoubleGreater,
            Token::OneDoubleGreater => Token::OneDoubleGreater,
            Token::TwoDoubleGreater => Token::TwoDoubleGreater,
            Token::ZeroDoubleGreater => Token::ZeroDoubleGreater,
        }
    }
}

impl DeepView for Token {
    type V = TokenView;

    open spec fn deep_view(&self) -> TokenView {
        self@
    }
}

/// Why a line could not be scanned.
#[derive(Debug, Clone, Copy, PartialEq, Eq, Structural)]
pub enum ScanError {
    /// A quote was opened and the line ended before it was closed.
    UnterminatedQuote,
    /// The line ended right after a backslash.
    TrailingBackslash,
}

/// The line that reports a scan error.
pub open spec fn scan_message(e: ScanError) -> Seq<char> {
    match e {
        ScanError::UnterminatedQuote => "syntax error: unterminated quote"@,
        ScanError::TrailingBackslash => "syntax error: expected a character after backslash"@,
    }
}

impl ScanError {
    /// The line that reports the error.
    pub fn message(&self) -> (text: String)
        ensures
            text@ == scan_message(*self),
    {
        match self {
            ScanError::UnterminatedQuote => "syntax error: unterminated quote".to_owned(),
            ScanError::TrailingBackslash => "syntax error: expected a character after backslash".to_owned(),
        }
    }
}

/// What scanning one word gives: its text and the position after it.
pub type Piece = Result<(Seq<char>, int), ScanError>;

/// Characters that end a word when they stand outside quotes.
pub open spec fn is_break(c: char) -> bool {
    c == ' ' || c == '>' || c == '&' || c == '|'
}

/// `r` with `head` put in front of its text.
pub open spec fn prepend(head: Seq<char>, r: Piece) -> Piece {
    match r {
        Ok((text, end)) => Ok((head + text, end)),
        Err(e) => Err(e),
    }
}

/// What one character after a backslash stands for inside double quotes.
pub open spec fn double_escape(c: char) -> Seq<char> {
    if c == '\\' || c == '"' {
        seq![c]
    } else {
        seq!['\\', c]
    }
}

/// The text of a double-quoted run whose opening quote stands just before
/// `i`, and the position after its closing quote.
pub open spec fn scan_double(s: Seq<char>, i: int) -> Piece
    decreases s.len() - i,
{
    if i < 0 || i >= s.len() {
        Err(ScanError::UnterminatedQuote)
    } else if s[i] == '"' {
        Ok((Seq::empty(), i + 1))
    } else if s[i] == '\\' {
        if i + 1 >= s.len() {
            Err(ScanError::TrailingBackslash)
        } else {
            prepend(double_escape(s[i + 1]), scan_double(s, i + 2))
        }
    } else {
        prepend(seq![s[i]], scan_double(s, i + 1))
    }
}

/// The text of a single-quoted run whose opening quote stands just before
/// `i`, and the position after its closing quote.
pub open spec fn scan_single(s: Seq<char>, i: int) -> Piece {
    let close = index_of(s, i, '\'');
    if 0 <= i <= close < s.len() {
        Ok((s.subrange(i, close), close + 1))
    } else {
        Err(ScanError::UnterminatedQuote)
    }
}

/// A double-quoted run ends after where it starts, and within the line.
pub proof fn lemma_scan_double_bounds(s: Seq<char>, i: int)
    requires
        0 <= i,
    ensures
        scan_double(s, i) matches Ok((_, end)) ==> i < end <= s.len(),
    decreases s.len() - i,
{
    if i < s.len() && s[i] != '"' {
        if s[i] == '\\' {
            if i + 1 < s.len() {
                lemma_scan_double_bounds(s, i + 2);
            }
        } else {
            lemma_scan_double_bounds(s, i + 1);
        }
    }
}

#[via_fn]
proof fn scan_literal_terminates(s: Seq<char>, i: int) {
    if 0 <= i {
        lemma_scan_double_bounds(s, i + 1);
    }
}

/// The rest of a word from position `i`, and the position of the unquoted
/// break character (or the end of the line) that ends it.
pub open spec fn scan_literal(s: Seq<char>, i: int) -> Piece
    decreases s.len() - i,
    via scan_literal_terminates
{
    if i < 0 || i >= s.len() || is_break(s[i]) {
        Ok((Seq::empty(), i))
    } else if s[i] == '\'' {
        match scan_single(s, i + 1) {
            Ok((text, end)) => prepend(text, scan_literal(s, end)),
            Err(e) => Err(e),
        }
    } else if s[i] == '"' {
        match scan_double(s, i + 1) {
            Ok((text, end)) => prepend(text, scan_literal(s, end)),
            Err(e) => Err(e),
        }
    } else if s[i] == '\\' {
        if i + 1 >= s.len() {
            Err(ScanError::TrailingBackslash)
        } else {
            prepend(seq![s[i + 1]], scan_literal(s, i + 2))
        }
    } else {
        prepend(seq![s[i]], scan_literal(s, i + 1))
    }
}

/// Whether `>` stands at position `i`.
pub open spec fn greater_at(s: Seq<char>, i: int) -> bool {
    0 <= i < s.len() && s[i] == '>'
}

/// The operator that starts at position `i`, with the number of characters
/// it takes, if one starts there.
pub open spec fn operator_at(s: Seq<char>, i: int) -> Option<(TokenView, int)> {
    if i < 0 || i >= s.len() {
        None
    } else if s[i] == '>' {
        if greater_at(s, i + 1) {
            Some((TokenView::DoubleGreater, 2))
        } else {
            Some((TokenView::Greater, 1))
        }
    } else if s[i] == '|' {
        Some((TokenView::Pipe, 1))
    } else if s[i] == '&' {
        Some((TokenView::Ampersand, 1))
    } else if (s[i] == '0' || s[i] == '1' || s[i] == '2') && greater_at(s, i + 1) {
        if greater_at(s, i + 2) {
            Some(
                (
                    if s[i] == '0' {
                        TokenView::ZeroDoubleGreater
                    } else if s[i] == '1' {
                        TokenView::OneDoubleGreater
                    } else {
                        TokenView::TwoDoubleGreater
                    },
                    3,
                ),
            )
        } else {
            Some(
                (
                    if s[i] == '0' {
                        TokenView::ZeroGreater
                    } else if s[i] == '1' {
                        TokenView::OneGreater
                    } else {
                        TokenView::TwoGreater
                    },
                    2,
                ),
            )
        }
    } else {
        None
    }
}

/// A word ends within the line, and after where it starts unless a break
/// character or the end of the line stands there.
pub proof fn lemma_scan_literal_bounds(s: Seq<char>, i: int)
    requires
        0 <= i <= s.len(),
    ensures
        scan_literal(s, i) matches Ok((_, end)) ==> i <= end <= s.len() && (i < s.len()
            && !is_break(s[i]) ==> i < end),
    decreases s.len() - i,
{
    if i < s.len() && !is_break(s[i]) {
        if s[i] == '\'' {
            if let Ok((_, end)) = scan_single(s, i + 1) {
                lemma_scan_literal_bounds(s, end);
            }
        } else if s[i] == '"' {
            lemma_scan_double_bounds(s, i + 1);
            if let Ok((_, end)) = scan_double(s, i + 1) {
                lemma_scan_literal_bounds(s, end);
            }
        } else if s[i] == '\\' {
            if i + 1 < s.len() {
                lemma_scan_literal_bounds(s, i + 2);
            }
        } else {
            lemma_scan_literal_bounds(s, i + 1);
        }
    }
}

#[via_fn]
proof fn scan_tokens_terminates(s: Seq<char>, i: int) {
    if 0 <= i < s.len() {
        lemma_scan_literal_bounds(s, i);
    }
}

/// `r` with the tokens `head` put in front.
pub open spec fn prepend_tokens(head: Seq<TokenView>, r: Result<Seq<TokenView>, ScanError>)
    -> Result<Seq<TokenView>, ScanError> {
    match r {
        Ok(tokens) => Ok(head + tokens),
        Err(e) => Err(e),
    }
}

/// The tokens of `s` from position `i` on.
pub open spec fn scan_tokens(s: Seq<char>, i: int) -> Result<Seq<TokenView>, ScanError>
    decreases s.len() - i,
    via scan_tokens_terminates
{
    if i < 0 || i >= s.len() {
        Ok(Seq::empty())
    } else if s[i] == ' ' {
        scan_tokens(s, i + 1)
    } else {
        match operator_at(s, i) {
            Some((token, width)) => prepend_tokens(seq![token], scan_tokens(s, i + width)),
            None => match scan_literal(s, i) {
                Ok((text, end)) => prepend_tokens(
                    seq![TokenView::Literal(text)],
                    scan_tokens(s, end),
                ),
                Err(e) => Err(e),
            },
        }
    }
}

/// The tokens of a whole line.
pub open spec fn tokenize_spec(line: Seq<char>) -> Result<Seq<TokenView>, ScanError> {
    scan_tokens(line, 0)
}

/// Putting text in front twice is putting the joined text in front once.
pub proof fn lemma_prepend_twice(a: Seq<char>, b: Seq<char>, r: Piece)
    ensures
        prepend(a, prepend(b, r)) == prepend(a + b, r),
{
    if let Ok((text, end)) = r {
        assert(a + (b + text) =~= (a + b) + text);
    }
}

/// Putting tokens in front twice is putting the joined tokens in front once.
pub proof fn lemma_prepend_tokens_twice(
    a: Seq<TokenView>,
    b: Seq<TokenView>,
    r: Result<Seq<TokenView>, ScanError>,
)
    ensures
        prepend_tokens(a, prepend_tokens(b, r)) == prepend_tokens(a + b, r),
{
    if let Ok(tokens) = r {
        assert(a + (b + tokens) =~= (a + b) + tokens);
    }
}

/// A character that stands for itself in a word: neither a break
/// character, nor a quote, nor a backslash.
pub open spec fn is_plain(c: char) -> bool {
    !is_break(c) && c != '\'' && c != '"' && c != '\\'
}

/// A run of plain characters, up to a break character or the end of the
/// line, is a word that holds just these characters.
pub proof fn lemma_scan_word(s: Seq<char>, i: int, end: int)
    requires
        0 <= i <= end <= s.len(),
        forall|k: int| i <= k < end ==> is_plain(#[trigger] s[k]),
        end < s.len() ==> is_break(s[end]),
    ensures
        scan_literal(s, i) == Ok::<(Seq<char>, int), ScanError>((s.subrange(i, end), end)),
    decreases end - i,
{
    if i < end {
        assert(is_plain(s[i]));
        lemma_scan_word(s, i + 1, end);
        assert(seq![s[i]] + s.subrange(i + 1, end) =~= s.subrange(i, end));
    } else {
        assert(s.subrange(i, end) =~= Seq::<char>::empty());
    }
}

/// A line that is one run of plain characters is one word: the line
/// itself.
pub proof fn lemma_plain_word(word: Seq<char>)
    requires
        word.len() > 0,
        forall|k: int| 0 <= k < word.len() ==> is_plain(#[trigger] word[k]),
    ensures
        tokenize_spec(word) == Ok::<Seq<TokenView>, ScanError>(seq![TokenView::Literal(word)]),
{
    lemma_scan_word(word, 0, word.len() as int);
    assert(is_plain(word[0]));
    if word.len() > 1 {
        assert(is_plain(word[1]));
    }
    assert(operator_at(word, 0).is_none());
    assert(word.subrange(0, word.len() as int) =~= word);
    assert(seq![TokenView::Literal(word)] + Seq::<TokenView>::empty() =~= seq![
        TokenView::Literal(word),
    ]);
    assert(scan_tokens(word, word.len() as int) == Ok::<Seq<TokenView>, ScanError>(
        Seq::empty(),
    ));
}

/// A line of spaces holds no token.
pub proof fn lemma_blank_line(line: Seq<char>, i: int)
    requires
        0 <= i,
        forall|k: int| i <= k < line.len() ==> line[k] == ' ',
    ensures
        scan_tokens(line, i) == Ok::<Seq<TokenView>, ScanError>(Seq::empty()),
    decreases line.len() - i,
{
    if i < line.len() {
        lemma_blank_line(line, i + 1);
    }
}

/// A scanner over one line: the characters of the line, how far it has
/// read, and the tokens found so far.
pub struct Tokenizer {
    chars: Vec<char>,
    position: usize,
    tokens: Vec<Token>,
}

impl Tokenizer {
    /// The line being scanned.
    pub closed spec fn line(&self) -> Seq<char> {
        self.chars@
    }

    /// How many characters have been read.
    pub closed spec fn cursor(&self) -> int {
        self.position as int
    }

    /// The tokens found so far.
    pub closed spec fn scanned(&self) -> Seq<TokenView> {
        self.tokens.deep_view()
    }

    /// The scanner has not read past the end of its line.
    pub closed spec fn wf(&self) -> bool {
        self.position <= self.chars.len()
    }

    /// A scanner at the start of `input`.
    pub fn new(input: &str) -> (t: Self)
        ensures
            t.wf(),
            t.line() == input@,
            t.cursor() == 0,
            t.scanned() == Seq::<TokenView>::empty(),
    {
        let t = Self { chars: chars_of(input), position: 0, tokens: Vec::new() };
        assert(t.tokens.deep_view() =~= Seq::<TokenView>::empty());
        t
    }

    fn peek(&self) -> (c: Option<char>)
        requires
            self.wf(),
        ensures
            c == if self.cursor() < self.line().len() {
                Some(self.line()[self.cursor()])
            } else {
                None
            },
    {
        if self.position < self.chars.len() {
            Some(self.chars[self.position])
        } else {
            None
        }
    }

    fn next(&mut self) -> (c: Option<char>)
        requires
            old(self).wf(),
        ensures
            final(self).wf(),
            final(self).line() == old(self).line(),
            final(self).scanned() == old(self).scanned(),
            old(self).cursor() < old(self).line().len() ==> c == Some(
                old(self).line()[old(self).cursor()],
            ) && final(self).cursor() == old(self).cursor() + 1,
            old(self).cursor() >= old(self).line().len() ==> c.is_none() && final(self).cursor()
                == old(self).cursor(),
    {
        if self.position < self.chars.len() {
            let c = self.chars[self.position];
            self.position += 1;
            Some(c)
        } else {
            None
        }
    }

    /// Scans the rest of the line and adds its tokens to those found so far.
    pub fn parse(&mut self) -> (r: Result<(), ScanError>)
        requires
            old(self).wf(),
        ensures
            final(self).wf(),
            final(self).line() == old(self).line(),
            match r {
                Ok(()) => scan_tokens(old(self).line(), old(self).cursor()) matches Ok(found)
                    && final(self).scanned() == old(self).scanned() + found
                    && final(self).cursor() == old(self).line().len(),
                Err(e) => scan_tokens(old(self).line(), old(self).cursor()) == Err::<
                    Seq<TokenView>,
                    ScanError,
                >(e),
            },
    {
        let ghost line = self.chars@;
        let ghost goal = prepend_tokens(self.scanned(), scan_tokens(line, self.cursor()));
        proof {
            if let Ok(found) = scan_tokens(line, self.cursor()) {
                assert(goal == Ok::<Seq<TokenView>, ScanError>(self.scanned() + found));
            }
        }
        while !self.done()
            invariant
                self.wf(),
                self.line() == line,
                line == old(self).line(),
                goal == prepend_tokens(
                    old(self).scanned(),
                    scan_tokens(line, old(self).cursor()),
                ),
                prepend_tokens(self.scanned(), scan_tokens(line, self.cursor())) == goal,
            decreases self.line().len() - self.cursor(),
        {
            let ghost before = self.scanned();
            let ghost at = self.cursor();
            let c = self.chars[self.position];
            let n = self.chars.len();
            let one = self.position + 1 < n && self.chars[self.position + 1] == '>';
            let two = one && self.position + 2 < n && self.chars[self.position + 2] == '>';
            if c == ' ' {
                self.whitespace();
            } else if c == '>' || c == '|' || c == '&' || ((c == '0' || c == '1' || c == '2')
                && one) {
                let token = if c == '>' {
                    self.position += 1;
                    if one {
                        self.position += 1;
                        Token::DoubleGreater
                    } else {
                        Token::Greater
                    }
                } else if c == '|' {
                    self.position += 1;
                    Token::Pipe
                } else if c == '&' {
                    self.position += 1;
                    Token::Ampersand
                } else if two {
                    self.position += 3;
                    if c == '0' {
                        Token::ZeroDoubleGreater
                    } else if c == '1' {
                        Token::OneDoubleGreater
                    } else {
                        Token::TwoDoubleGreater
                    }
                } else {
                    self.position += 2;
                    if c == '0' {
                        Token::ZeroGreater
                    } else if c == '1' {
                        Token::OneGreater
                    } else {
                        Token::TwoGreater
                    }
                };
                proof {
                    assert(operator_at(line, at) == Some((token@, self.cursor() - at)));
                    lemma_prepend_tokens_twice(
                        before,
                        seq![token@],
                        scan_tokens(line, self.cursor()),
                    );
                }
                self.tokens.push(token);
                assert(self.scanned() =~= before + seq![token@]);
            } else {
                assert(operator_at(line, at).is_none());
                proof {
                    lemma_scan_literal_bounds(line, at);
                }
                match self.literal() {
                    Ok(()) => {
                        proof {
                            let text = scan_literal(line, at)->Ok_0.0;
                            lemma_prepend_tokens_twice(
                                before,
                                seq![TokenView::Literal(text)],
                                scan_tokens(line, self.cursor()),
                            );
                            assert(self.scanned() =~= before + seq![TokenView::Literal(text)]);
                        }
                    },
                    Err(e) => {
                        return Err(e);
                    },
                }
            }
        }
        proof {
            assert(self.scanned() + Seq::<TokenView>::empty() =~= self.scanned());
        }
        Ok(())
    }

    /// Reads one word, which starts at the current position, and adds it to
    /// the tokens found so far.
    fn literal(&mut self) -> (r: Result<(), ScanError>)
        requires
            old(self).wf(),
        ensures
            final(self).wf(),
            final(self).line() == old(self).line(),
            match r {
                Ok(()) => scan_literal(old(self).line(), old(self).cursor()) matches Ok(
                    (text, end),
                ) && final(self).cursor() == end && final(self).scanned() == old(
                    self,
                ).scanned().push(TokenView::Literal(text)),
                Err(e) => scan_literal(old(self).line(), old(self).cursor()) == Err::<
                    (Seq<char>, int),
                    ScanError,
                >(e),
            },
    {
        let ghost line = self.chars@;
        let ghost goal = scan_literal(line, self.cursor());
        let ghost before = self.scanned();
        let mut literal = String::new();
        proof {
            lemma_prepend_twice(Seq::empty(), Seq::empty(), goal);
            assert(literal@ =~= Seq::<char>::empty() + Seq::<char>::empty());
            match goal {
                Ok((text, end)) => {
                    assert(Seq::<char>::empty() + text =~= text);
                },
                Err(e) => {},
            }
        }
        loop
            invariant
                self.wf(),
                self.line() == line,
                line == old(self).line(),
                goal == scan_literal(line, old(self).cursor()),
                self.scanned() == before,
                prepend(literal@, scan_literal(line, self.cursor())) == goal,
            ensures
                self.wf(),
                self.line() == line,
                self.scanned() == before,
                goal == Ok::<(Seq<char>, int), ScanError>((literal@, self.cursor())),
            decreases self.line().len() - self.cursor(),
        {
            let ghost at = self.cursor();
            let ghost so_far = literal@;
            match self.peek() {
                None => {
                    assert(so_far + Seq::<char>::empty() =~= so_far);
                    break ;
                },
                Some(c) => {
                    if c == ' ' || c == '>' || c == '&' || c == '|' {
                        assert(so_far + Seq::<char>::empty() =~= so_far);
                        break ;
                    } else if c == '\'' {
                        match self.single_quote_literal() {
                            Ok(text) => {
                                literal.push_str(text.as_str());
                                proof {
                                    lemma_prepend_twice(
                                        so_far,
                                        text@,
                                        scan_literal(line, self.cursor()),
                                    );
                                }
                            },
                            Err(e) => {
                                return Err(e);
                            },
                        }
                    } else if c == '"' {
                        proof {
                            lemma_scan_double_bounds(line, at + 1);
                        }
                        match self.double_quote_literal() {
                            Ok(text) => {
                                literal.push_str(text.as_str());
                                proof {
                                    lemma_prepend_twice(
                                        so_far,
                                        text@,
                                        scan_literal(line, self.cursor()),
                                    );
                                }
                            },
                            Err(e) => {
                                return Err(e);
                            },
                        }
                    } else if c == '\\' {
                        self.next();
                        match self.next() {
                            Some(escaped) => {
                                literal.push(escaped);
                                proof {
                                    lemma_prepend_twice(
                                        so_far,
                                        seq![escaped],
                                        scan_literal(line, self.cursor()),
                                    );
                                    assert(so_far.push(escaped) =~= so_far + seq![escaped]);
                                }
                            },
                            None => {
                                return Err(ScanError::TrailingBackslash);
                            },
                        }
                    } else {
                        self.next();
                        literal.push(c);
                        proof {
                            lemma_prepend_twice(
                                so_far,
                                seq![c],
                                scan_literal(line, self.cursor()),
                            );
                            assert(so_far.push(c) =~= so_far + seq![c]);
                        }
                    }
                },
            }
        }
        self.tokens.push(Token::Literal(literal));
        assert(self.scanned() =~= before.push(TokenView::Literal(literal@)));
        Ok(())
    }

    /// Reads a single-quoted run, whose opening quote stands at the current
    /// position, and returns its text.
    fn single_quote_literal(&mut self) -> (r: Result<String, ScanError>)
        requires
            old(self).wf(),
            old(self).cursor() < old(self).line().len(),
        ensures
            final(self).wf(),
            final(self).line() == old(self).line(),
            final(self).scanned() == old(self).scanned(),
            match r {
                Ok(text) => scan_single(old(self).line(), old(self).cursor() + 1) == Ok::<
                    (Seq<char>, int),
                    ScanError,
                >((text@, final(self).cursor())),
                Err(e) => scan_single(old(self).line(), old(self).cursor() + 1) == Err::<
                    (Seq<char>, int),
                    ScanError,
                >(e),
            },
    {
        let ghost line = self.chars@;
        let ghost before = self.scanned();
        let mut literal = String::new();
        self.next();
        let ghost start = self.cursor();
        assert(literal@ =~= line.subrange(start, start));
        loop
            invariant
                self.wf(),
                self.line() == line,
                line == old(self).line(),
                before == old(self).scanned(),
                start == old(self).cursor() + 1,
                self.scanned() == before,
                0 <= start <= self.cursor(),
                literal@ == line.subrange(start, self.cursor()),
                forall|k: int| start <= k < self.cursor() ==> line[k] != '\'',
            decreases self.line().len() - self.cursor(),
        {
            let ghost at = self.cursor();
            proof {
                lemma_index_of_skip(line, start, at, '\'');
            }
            match self.next() {
                None => {
                    return Err(ScanError::UnterminatedQuote);
                },
                Some(c) => {
                    if c == '\'' {
                        return Ok(literal);
                    }
                    literal.push(c);
                    assert(literal@ =~= line.subrange(start, self.cursor()));
                },
            }
        }
    }

    /// Reads a double-quoted run, whose opening quote stands at the current
    /// position, and returns its text.
    fn double_quote_literal(&mut self) -> (r: Result<String, ScanError>)
        requires
            old(self).wf(),
            old(self).cursor() < old(self).line().len(),
        ensures
            final(self).wf(),
            final(self).line() == old(self).line(),
            final(self).scanned() == old(self).scanned(),
            match r {
                Ok(text) => scan_double(old(self).line(), old(self).cursor() + 1) == Ok::<
                    (Seq<char>, int),
                    ScanError,
                >((text@, final(self).cursor())),
                Err(e) => scan_double(old(self).line(), old(self).cursor() + 1) == Err::<
                    (Seq<char>, int),
                    ScanError,
                >(e),
            },
    {
        let ghost line = self.chars@;
        let ghost before = self.scanned();
        let mut literal = String::new();
        self.next();
        let ghost goal = scan_double(line, self.cursor());
        proof {
            match goal {
                Ok((text, end)) => {
                    assert(Seq::<char>::empty() + text =~= text);
                },
                Err(e) => {},
            }
        }
        loop
            invariant
                self.wf(),
                self.line() == line,
                line == old(self).line(),
                before == old(self).scanned(),
                goal == scan_double(line, old(self).cursor() + 1),
                self.scanned() == before,
                prepend(literal@, scan_double(line, self.cursor())) == goal,
            decreases self.line().len() - self.cursor(),
        {
            let ghost so_far = literal@;
            match self.next() {
                None => {
                    return Err(ScanError::UnterminatedQuote);
                },
                Some(c) => {
                    if c == '"' {
                        assert(so_far + Seq::<char>::empty() =~= so_far);
                        return Ok(literal);
                    } else if c == '\\' {
                        match self.next() {
                            None => {
                                return Err(ScanError::TrailingBackslash);
                            },
                            Some(escaped) => {
                                if escaped == '\\' || escaped == '"' {
                                    literal.push(escaped);
                                } else {
                                    literal.push('\\');
                                    literal.push(escaped);
                                }
                                proof {
                                    lemma_prepend_twice(
                                        so_far,
                                        double_escape(escaped),
                                        scan_double(line, self.cursor()),
                                    );
                                    assert(literal@ =~= so_far + double_escape(escaped));
                                }
                            },
                        }
                    } else {
                        literal.push(c);
                        proof {
                            lemma_prepend_twice(so_far, seq![c], scan_double(line, self.cursor()));
                            assert(so_far.push(c) =~= so_far + seq![c]);
                        }
                    }
                },
            }
        }
    }

    /// Skips the run of spaces at the current position.
    fn whitespace(&mut self)
        requires
            old(self).wf(),
        ensures
            final(self).wf(),
            final(self).line() == old(self).line(),
            final(self).scanned() == old(self).scanned(),
            old(self).cursor() <= final(self).cursor(),
            old(self).cursor() < old(self).line().len() && old(self).line()[old(self).cursor()]
                == ' ' ==> old(self).cursor() < final(self).cursor(),
            scan_tokens(final(self).line(), final(self).cursor()) == scan_tokens(
                old(self).line(),
                old(self).cursor(),
            ),
    {
        let ghost line = self.chars@;
        let ghost before = self.scanned();
        let ghost start = self.cursor();
        while self.peek() == Some(' ')
            invariant
                self.wf(),
                self.line() == line,
                line == old(self).line(),
                before == old(self).scanned(),
                start == old(self).cursor(),
                self.scanned() == before,
                start <= self.cursor(),
                forall|k: int| start <= k < self.cursor() ==> line[k] == ' ',
                scan_tokens(line, self.cursor()) == scan_tokens(line, start),
            decreases self.line().len() - self.cursor(),
        {
            self.next();
        }
    }

    /// Whether the whole line has been read.
    fn done(&self) -> (b: bool)
        requires
            self.wf(),
        ensures
            b == (self.cursor() == self.line().len()),
    {
        self.position == self.chars.len()
    }

    /// The tokens found so far.
    pub fn tokens(self) -> (v: Vec<Token>)
        ensures
            v.deep_view() == self.scanned(),
    {
        self.tokens
    }

    /// Scans a whole line into its tokens.
    pub fn tokenize(input: &str) -> (r: Result<Vec<Token>, ScanError>)
        ensures
            match r {
                Ok(v) => tokenize_spec(input@) == Ok::<Seq<TokenView>, ScanError>(v.deep_view()),
                Err(e) => tokenize_spec(input@) == Err::<Seq<TokenView>, ScanError>(e),
            },
    {
        let mut tokenizer = Self::new(input);
        match tokenizer.parse() {
            Ok(()) => {
                let ghost found = tokenizer.scanned();
                assert(Seq::<TokenView>::empty() + found =~= found);
                Ok(tokenizer.tokens())
            },
            Err(e) => Err(e),
        }
    }
}

} // verus!
