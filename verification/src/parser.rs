//! The parser: a sequence of tokens becomes a pipeline.

use crate::tokenizer::{Token, TokenView};
use vstd::prelude::*;

verus! {

/// One of the three standard streams of a command.
#[derive(Debug, Clone, Copy, PartialEq, Eq, Structural)]
pub enum Stream {
    Stdin,
    Stdout,
    Stderr,
}

/// A pipeline: commands joined by pipes, with output sent to files.
#[derive(Debug, PartialEq, Eq)]
#[allow(inconsistent_fields)]
pub enum Expr {
    /// A command with its arguments.
    Command { name: String, args: Vec<String> },
    /// `src` with one of its output streams written to the file `dest`,
    /// which is emptied first.
    Redirect { src: Box<Expr>, stream: Stream, dest: String },
    /// `src` with one of its output streams added to the end of the file
    /// `dest`.
    Append { src: Box<Expr>, stream: Stream, dest: String },
    /// `src` with its standard output feeding the standard input of `dest`.
    Pipe { src: Box<Expr>, dest: Box<Expr> },
}

/// The mathematical value of an [`Expr`].
#[allow(inconsistent_fields)]
pub enum ExprView {
    Command { name: Seq<char>, args: Seq<Seq<char>> },
    Redirect { src: Box<ExprView>, stream: Stream, dest: Seq<char> },
    Append { src: Box<ExprView>, stream: Stream, dest: Seq<char> },
    Pipe { src: Box<ExprView>, dest: Box<ExprView> },
}

impl View for Expr {
    type V = ExprView;

    open spec fn view(&self) -> ExprView
        decreases self,
    {
        match self {
            Expr::Command { name, args } => ExprView::Command {
                name: name@,
                args: args.deep_view(),
            },
            Expr::Redirect { src, stream, dest } => ExprView::Redirect {
                src: Box::new((**src).view()),
                stream: *stream,
                dest: dest@,
            },
            Expr::Append { src, stream, dest } => ExprView::Append {
                src: Box::new((**src).view()),
                stream: *stream,
                dest: dest@,
            },
            Expr::Pipe { src, dest } => ExprView::Pipe {
                src: Box::new((**src).view()),
                dest: Box::new((**dest).view()),
            },
        }
    }
}

/// Why a sequence of tokens is not a pipeline.
#[derive(Debug, Clone, Copy, PartialEq, Eq, Structural)]
pub enum ParseError {
    /// A command was expected, and no word, or an empty word, stands there.
    MissingCommand,
    /// A redirection is not followed by the word that names its file.
    MissingDestination,
    /// The operator is recognised and not supported: redirection of
    /// standard input, or `&`.
    Unsupported,
    /// A word stands where an operator or the end of the line was expected.
    UnexpectedWord,
}

/// The line that reports a parse error.
pub open spec fn parse_message(e: ParseError) -> Seq<char> {
    match e {
        ParseError::MissingCommand => "syntax error: expected a command name"@,
        ParseError::MissingDestination => "syntax error: expected a destination after redirect"@,
        ParseError::Unsupported => "syntax error: unsupported operator"@,
        ParseError::UnexpectedWord => "syntax error: unexpected word"@,
    }
}

impl ParseError {
    /// The line that reports the error.
    pub fn message(&self) -> (text: String)
        ensures
            text@ == parse_message(*self),
    {
        match self {
            ParseError::MissingCommand => "syntax error: expected a command name".to_owned(),
            ParseError::MissingDestination => "syntax error: expected a destination after redirect".to_owned(),
            ParseError::Unsupported => "syntax error: unsupported operator".to_owned(),
            ParseError::UnexpectedWord => "syntax error: unexpected word".to_owned(),
        }
    }
}

/// What parsing one piece gives: the pipeline so far and the position after
/// the piece.
pub type Parsed = Result<(ExprView, int), ParseError>;

/// The first position at or after `i` that does not hold a word.
pub open spec fn words_end(tokens: Seq<TokenView>, i: int) -> int
    decreases tokens.len() - i,
{
    if i < 0 || i >= tokens.len() || !(tokens[i] is Literal) {
        i
    } else {
        words_end(tokens, i + 1)
    }
}

/// The texts of the words at positions `from..to`.
pub open spec fn words(tokens: Seq<TokenView>, from: int, to: int) -> Seq<Seq<char>> {
    Seq::new((to - from) as nat, |k: int| tokens[from + k]->Literal_0)
}

/// Whether a word stands at position `i`.
pub open spec fn word_at(tokens: Seq<TokenView>, i: int) -> bool {
    0 <= i < tokens.len() && tokens[i] is Literal
}

/// The command that starts at position `i`: a non-empty word, and the words
/// that follow it.
pub open spec fn parse_command(tokens: Seq<TokenView>, i: int) -> Parsed {
    if word_at(tokens, i) && tokens[i]->Literal_0.len() > 0 {
        let end = words_end(tokens, i + 1);
        Ok((ExprView::Command { name: tokens[i]->Literal_0, args: words(tokens, i + 1, end) }, end))
    } else {
        Err(ParseError::MissingCommand)
    }
}

/// `acc` sent to the file named at position `i`.
pub open spec fn parse_target(
    tokens: Seq<TokenView>,
    i: int,
    acc: ExprView,
    stream: Stream,
    append: bool,
) -> Parsed {
    if word_at(tokens, i) {
        let dest = tokens[i]->Literal_0;
        if append {
            Ok((ExprView::Append { src: Box::new(acc), stream, dest }, i + 1))
        } else {
            Ok((ExprView::Redirect { src: Box::new(acc), stream, dest }, i + 1))
        }
    } else {
        Err(ParseError::MissingDestination)
    }
}

/// `acc` feeding the command that starts at position `i`.
pub open spec fn parse_pipe(tokens: Seq<TokenView>, i: int, acc: ExprView) -> Parsed {
    match parse_command(tokens, i) {
        Ok((dest, end)) => Ok((ExprView::Pipe { src: Box::new(acc), dest: Box::new(dest) }, end)),
        Err(e) => Err(e),
    }
}

/// `acc` with the operator at position `i`, and its operand, applied to it.
pub open spec fn parse_step(tokens: Seq<TokenView>, i: int, acc: ExprView) -> Parsed
    recommends
        0 <= i < tokens.len(),
{
    match tokens[i] {
        TokenView::Greater | TokenView::OneGreater => parse_target(
            tokens,
            i + 1,
            acc,
            Stream::Stdout,
            false,
        ),
        TokenView::TwoGreater => parse_target(tokens, i + 1, acc, Stream::Stderr, false),
        TokenView::DoubleGreater | TokenView::OneDoubleGreater => parse_target(
            tokens,
            i + 1,
            acc,
            Stream::Stdout,
            true,
        ),
        TokenView::TwoDoubleGreater => parse_target(tokens, i + 1, acc, Stream::Stderr, true),
        TokenView::Pipe => parse_pipe(tokens, i + 1, acc),
        TokenView::ZeroGreater | TokenView::ZeroDoubleGreater | TokenView::Ampersand => Err(
            ParseError::Unsupported,
        ),
        TokenView::Literal(_) => Err(ParseError::UnexpectedWord),
    }
}

/// Words end at or after where they start, and within the tokens.
pub proof fn lemma_words_end_bounds(tokens: Seq<TokenView>, i: int)
    requires
        0 <= i <= tokens.len(),
    ensures
        i <= words_end(tokens, i) <= tokens.len(),
        forall|k: int| i <= k < words_end(tokens, i) ==> tokens[k] is Literal,
        !word_at(tokens, words_end(tokens, i)),
    decreases tokens.len() - i,
{
    if i < tokens.len() && tokens[i] is Literal {
        lemma_words_end_bounds(tokens, i + 1);
    }
}

/// An operator and its operand end after where they start, and within the
/// tokens.
pub proof fn lemma_parse_step_bounds(tokens: Seq<TokenView>, i: int, acc: ExprView)
    requires
        0 <= i < tokens.len(),
    ensures
        parse_step(tokens, i, acc) matches Ok((_, end)) ==> i < end <= tokens.len(),
{
    if word_at(tokens, i + 1) {
        lemma_words_end_bounds(tokens, i + 2);
    }
}

#[via_fn]
proof fn parse_rest_terminates(tokens: Seq<TokenView>, i: int, acc: ExprView) {
    if 0 <= i < tokens.len() {
        lemma_parse_step_bounds(tokens, i, acc);
    }
}

/// `acc` with the operators from position `i` on applied to it, from left
/// to right.
pub open spec fn parse_rest(tokens: Seq<TokenView>, i: int, acc: ExprView) -> Result<
    ExprView,
    ParseError,
>
    decreases tokens.len() - i,
    via parse_rest_terminates
{
    if i < 0 || i >= tokens.len() {
        Ok(acc)
    } else {
        match parse_step(tokens, i, acc) {
            Ok((next, end)) => parse_rest(tokens, end, next),
            Err(e) => Err(e),
        }
    }
}

/// The pipeline that the tokens from position `i` on stand for.
pub open spec fn parse_from(tokens: Seq<TokenView>, i: int) -> Result<ExprView, ParseError> {
    match parse_command(tokens, i) {
        Ok((first, end)) => parse_rest(tokens, end, first),
        Err(e) => Err(e),
    }
}

/// The pipeline that a whole sequence of tokens stands for.
pub open spec fn parse_spec(tokens: Seq<TokenView>) -> Result<ExprView, ParseError> {
    parse_from(tokens, 0)
}

/// What holds of every pipeline that the parser builds: each command has a
/// name, no file takes the place of standard input, and the right side of a
/// pipe is a single command.
pub open spec fn well_formed(e: ExprView) -> bool
    decreases e,
{
    match e {
        ExprView::Command { name, args } => name.len() > 0,
        ExprView::Redirect { src, stream, dest } => stream != Stream::Stdin && well_formed(*src),
        ExprView::Append { src, stream, dest } => stream != Stream::Stdin && well_formed(*src),
        ExprView::Pipe { src, dest } => well_formed(*src) && *dest is Command && well_formed(
            *dest,
        ),
    }
}

/// Applying operators to a well-formed pipeline gives a well-formed
/// pipeline.
pub proof fn lemma_parse_rest_well_formed(tokens: Seq<TokenView>, i: int, acc: ExprView)
    requires
        well_formed(acc),
    ensures
        parse_rest(tokens, i, acc) matches Ok(e) ==> well_formed(e),
    decreases tokens.len() - i,
{
    if 0 <= i < tokens.len() {
        lemma_parse_step_bounds(tokens, i, acc);
        if let Ok((next, end)) = parse_step(tokens, i, acc) {
            assert(well_formed(next)) by {
                reveal_with_fuel(well_formed, 2);
            }
            lemma_parse_rest_well_formed(tokens, end, next);
        }
    }
}

/// Every pipeline that parsing gives is well formed.
pub proof fn lemma_parse_well_formed(tokens: Seq<TokenView>)
    ensures
        parse_spec(tokens) matches Ok(e) ==> well_formed(e),
{
    if let Ok((first, end)) = parse_command(tokens, 0) {
        lemma_parse_rest_well_formed(tokens, end, first);
    }
}

/// A parser over a sequence of tokens: how far it has read, and the
/// pipeline built so far.
pub struct Parser {
    tokens: Vec<Token>,
    position: usize,
    ast: Option<Expr>,
}

impl Parser {
    /// The tokens being parsed.
    pub closed spec fn input(&self) -> Seq<TokenView> {
        self.tokens.deep_view()
    }

    /// How many tokens have been read.
    pub closed spec fn cursor(&self) -> int {
        self.position as int
    }

    /// The pipeline built so far, if any.
    pub closed spec fn tree(&self) -> Option<ExprView> {
        match self.ast {
            Some(e) => Some(e@),
            None => None,
        }
    }

    /// The parser has not read past the end of its tokens.
    pub closed spec fn wf(&self) -> bool {
        self.position <= self.tokens.len()
    }

    /// A parser at the start of `tokens`, with no pipeline built.
    pub fn new(tokens: Vec<Token>) -> (p: Self)
        ensures
            p.wf(),
            p.input() == tokens.deep_view(),
            p.cursor() == 0,
            p.tree().is_none(),
    {
        Self { tokens, position: 0, ast: None }
    }

    fn next(&mut self) -> (t: Option<Token>)
        requires
            old(self).wf(),
        ensures
            final(self).wf(),
            final(self).input() == old(self).input(),
            final(self).tree() == old(self).tree(),
            old(self).cursor() < old(self).input().len() ==> t.is_some() && t->0@ == old(
                self,
            ).input()[old(self).cursor()] && final(self).cursor() == old(self).cursor() + 1,
            old(self).cursor() >= old(self).input().len() ==> t.is_none() && final(self).cursor()
                == old(self).cursor(),
    {
        if self.position < self.tokens.len() {
            let t = self.tokens[self.position].clone();
            self.position += 1;
            Some(t)
        } else {
            None
        }
    }

    fn peek(&self) -> (t: Option<Token>)
        requires
            self.wf(),
        ensures
            self.cursor() < self.input().len() ==> t.is_some() && t->0@
                == self.input()[self.cursor()],
            self.cursor() >= self.input().len() ==> t.is_none(),
    {
        if self.position < self.tokens.len() {
            Some(self.tokens[self.position].clone())
        } else {
            None
        }
    }

    /// Parses the rest of the tokens into a pipeline, which [`Parser::ast`]
    /// then hands out.
    pub fn parse(&mut self) -> (r: Result<(), ParseError>)
        requires
            old(self).wf(),
        ensures
            final(self).wf(),
            final(self).input() == old(self).input(),
            match r {
                Ok(()) => final(self).tree() matches Some(e) && parse_from(
                    old(self).input(),
                    old(self).cursor(),
                ) == Ok::<ExprView, ParseError>(e) && well_formed(e) && final(self).cursor()
                    == old(self).input().len(),
                Err(e) => final(self).tree().is_none() && parse_from(
                    old(self).input(),
                    old(self).cursor(),
                ) == Err::<ExprView, ParseError>(e),
            },
    {
        let ghost input = self.input();
        let ghost goal = parse_from(input, self.cursor());
        self.ast = None;
        match self.command() {
            Ok(first) => {
                self.ast = Some(first);
            },
            Err(e) => {
                return Err(e);
            },
        }
        loop
            invariant
                self.wf(),
                self.input() == input,
                input == old(self).input(),
                goal == parse_from(input, old(self).cursor()),
                self.tree() matches Some(acc) && parse_rest(input, self.cursor(), acc) == goal
                    && well_formed(acc),
            ensures
                self.wf(),
                self.input() == input,
                self.cursor() == input.len(),
                self.tree() matches Some(e) && goal == Ok::<ExprView, ParseError>(e)
                    && well_formed(e),
            decreases self.input().len() - self.cursor(),
        {
            let ghost acc = self.tree()->0;
            proof {
                if self.cursor() < input.len() {
                    lemma_parse_step_bounds(input, self.cursor(), acc);
                }
            }
            let step = match self.peek() {
                None => {
                    break ;
                },
                Some(Token::Greater) | Some(Token::OneGreater) | Some(Token::TwoGreater) => {
                    self.redirect()
                },
                Some(Token::DoubleGreater) | Some(Token::OneDoubleGreater) | Some(
                    Token::TwoDoubleGreater,
                ) => { self.append() },
                Some(Token::Pipe) => { self.pipe() },
                Some(Token::Ampersand) | Some(Token::ZeroGreater) | Some(
                    Token::ZeroDoubleGreater,
                ) => {
                    self.ast = None;
                    Err(ParseError::Unsupported)
                },
                Some(Token::Literal(_)) => {
                    self.ast = None;
                    Err(ParseError::UnexpectedWord)
                },
            };
            match step {
                Ok(next) => {
                    assert(well_formed(next@)) by {
                        reveal_with_fuel(well_formed, 2);
                    }
                    self.ast = Some(next);
                },
                Err(e) => {
                    return Err(e);
                },
            }
        }
        Ok(())
    }

    /// Reads a command: a word that names it, and the words that follow.
    fn command(&mut self) -> (r: Result<Expr, ParseError>)
        requires
            old(self).wf(),
        ensures
            final(self).wf(),
            final(self).input() == old(self).input(),
            final(self).tree() == old(self).tree(),
            match r {
                Ok(e) => parse_command(old(self).input(), old(self).cursor()) == Ok::<
                    (ExprView, int),
                    ParseError,
                >((e@, final(self).cursor())),
                Err(e) => parse_command(old(self).input(), old(self).cursor()) == Err::<
                    (ExprView, int),
                    ParseError,
                >(e),
            },
    {
        let ghost input = self.input();
        let name = match self.next() {
            Some(Token::Literal(name)) => name,
            _ => {
                return Err(ParseError::MissingCommand);
            },
        };
        if name.as_str().is_empty() {
            return Err(ParseError::MissingCommand);
        }
        let ghost start = self.cursor();
        let mut args: Vec<String> = Vec::new();
        assert(args.deep_view() =~= words(input, start, start));
        loop
            invariant
                self.wf(),
                self.input() == input,
                input == old(self).input(),
                self.tree() == old(self).tree(),
                start == old(self).cursor() + 1,
                start <= self.cursor(),
                words_end(input, self.cursor()) == words_end(input, start),
                args.deep_view() == words(input, start, self.cursor()),
            ensures
                self.wf(),
                self.input() == input,
                self.tree() == old(self).tree(),
                self.cursor() == words_end(input, start),
                args.deep_view() == words(input, start, self.cursor()),
            decreases self.input().len() - self.cursor(),
        {
            match self.peek() {
                Some(Token::Literal(s)) => {
                    let ghost before = args.deep_view();
                    let ghost at = self.cursor();
                    let ghost text = s@;
                    assert(input[at] == TokenView::Literal(text));
                    args.push(s);
                    self.next();
                    assert(args.deep_view() =~= before.push(text));
                    assert(before.push(text) =~= words(input, start, at + 1));
                },
                _ => {
                    break ;
                },
            }
        }
        Ok(Expr::Command { name, args })
    }

    /// Reads a redirection and the word that names its file, and wraps the
    /// pipeline built so far in it.
    fn redirect(&mut self) -> (r: Result<Expr, ParseError>)
        requires
            old(self).wf(),
            old(self).tree().is_some(),
            old(self).cursor() < old(self).input().len(),
            ({
                let t = old(self).input()[old(self).cursor()];
                t is Greater || t is OneGreater || t is TwoGreater
            }),
        ensures
            final(self).wf(),
            final(self).input() == old(self).input(),
            final(self).tree().is_none(),
            match r {
                Ok(e) => parse_step(old(self).input(), old(self).cursor(), old(self).tree()->0)
                    == Ok::<(ExprView, int), ParseError>((e@, final(self).cursor())),
                Err(e) => parse_step(old(self).input(), old(self).cursor(), old(self).tree()->0)
                    == Err::<(ExprView, int), ParseError>(e),
            },
    {
        let src = Box::new(self.ast.take().unwrap());
        let stream = match self.next() {
            Some(Token::TwoGreater) => Stream::Stderr,
            _ => Stream::Stdout,
        };
        match self.next() {
            Some(Token::Literal(dest)) => Ok(Expr::Redirect { src, stream, dest }),
            _ => Err(ParseError::MissingDestination),
        }
    }

    /// Reads a pipe and the command after it, and feeds the pipeline built
    /// so far into that command.
    fn pipe(&mut self) -> (r: Result<Expr, ParseError>)
        requires
            old(self).wf(),
            old(self).tree().is_some(),
            old(self).cursor() < old(self).input().len(),
            old(self).input()[old(self).cursor()] is Pipe,
        ensures
            final(self).wf(),
            final(self).input() == old(self).input(),
            final(self).tree().is_none(),
            match r {
                Ok(e) => parse_step(old(self).input(), old(self).cursor(), old(self).tree()->0)
                    == Ok::<(ExprView, int), ParseError>((e@, final(self).cursor())),
                Err(e) => parse_step(old(self).input(), old(self).cursor(), old(self).tree()->0)
                    == Err::<(ExprView, int), ParseError>(e),
            },
    {
        let src = Box::new(self.ast.take().unwrap());
        self.next();
        match self.command() {
            Ok(dest) => Ok(Expr::Pipe { src, dest: Box::new(dest) }),
            Err(e) => Err(e),
        }
    }

    /// The pipeline that [`Parser::parse`] built, if it built one.
    pub fn ast(self) -> (e: Option<Expr>)
        ensures
            match e {
                Some(e) => self.tree() == Some(e@),
                None => self.tree().is_none(),
            },
    {
        self.ast
    }

    /// Reads an appending redirection and the word that names its file, and
    /// wraps the pipeline built so far in it.
    fn append(&mut self) -> (r: Result<Expr, ParseError>)
        requires
            old(self).wf(),
            old(self).tree().is_some(),
            old(self).cursor() < old(self).input().len(),
            ({
                let t = old(self).input()[old(self).cursor()];
                t is DoubleGreater || t is OneDoubleGreater || t is TwoDoubleGreater
            }),
        ensures
            final(self).wf(),
            final(self).input() == old(self).input(),
            final(self).tree().is_none(),
            match r {
                Ok(e) => parse_step(old(self).input(), old(self).cursor(), old(self).tree()->0)
                    == Ok::<(ExprView, int), ParseError>((e@, final(self).cursor())),
                Err(e) => parse_step(old(self).input(), old(self).cursor(), old(self).tree()->0)
                    == Err::<(ExprView, int), ParseError>(e),
            },
    {
        let src = Box::new(self.ast.take().unwrap());
        let stream = match self.next() {
            Some(Token::TwoDoubleGreater) => Stream::Stderr,
            _ => Stream::Stdout,
        };
        match self.next() {
            Some(Token::Literal(dest)) => Ok(Expr::Append { src, stream, dest }),
            _ => Err(ParseError::MissingDestination),
        }
    }
}

} // verus!
