//! The line editor: what each key does to the line being typed, and what
//! is to be shown and run in answer to it.

use crate::completion::{
    candidates, completions, completions_prefix, longest_common_prefix, ordered, sort,
};
use crate::eval::{lemma_well_formed_supported, plan, plan_spec, Step, StepView};
use crate::history::{newer, older, History};
use crate::parser::{parse_message, parse_spec, Parser};
use crate::terminal::{clear_after_cursor, clear_text, cursor_left, left_text};
use crate::text::{join, joined};
use crate::tokenizer::{scan_message, tokenize_spec, Tokenizer};
use vstd::prelude::*;

verus! {

/// A key, as the editor tells keys apart.
#[derive(Debug, Clone, Copy, PartialEq, Eq, Structural)]
pub enum Key {
    /// A character; the tab and the line feed among them.
    Char(char),
    /// The backspace key.
    Backspace,
    /// A character typed with the control key held.
    Ctrl(char),
    /// The up arrow.
    Up,
    /// The down arrow.
    Down,
    /// Any other key.
    Other,
}

/// Whether the last tab found several candidates and could not extend the
/// line.
#[derive(Debug, Clone, Copy, PartialEq, Eq, Structural)]
pub enum CompletionState {
    /// It did not.
    Idle,
    /// It did: the next tab lists the candidates.
    Multiple,
}

/// Something to do outside in answer to a key. Effects are carried out in
/// the order in which they are given.
#[derive(Debug, PartialEq, Eq)]
pub enum Effect {
    /// Write the text to the terminal.
    Display(String),
    /// Put the terminal into raw mode, or take it out of raw mode.
    RawMode(bool),
    /// Write the text and a line feed to standard output.
    Print(String),
    /// Write the text and a line feed to standard error.
    Report(String),
    /// Carry out the plan and wait for it.
    Execute(Vec<Step>),
    /// Leave the program with this code.
    Exit(i32),
}

/// The mathematical value of an [`Effect`].
pub enum EffectView {
    Display(Seq<char>),
    RawMode(bool),
    Print(Seq<char>),
    Report(Seq<char>),
    Execute(Seq<StepView>),
    Exit(i32),
}

impl View for Effect {
    type V = EffectView;

    open spec fn view(&self) -> EffectView {
        match self {
            Effect::Display(t) => EffectView::Display(t@),
            Effect::RawMode(b) => EffectView::RawMode(*b),
            Effect::Print(t) => EffectView::Print(t@),
            Effect::Report(t) => EffectView::Report(t@),
            Effect::Execute(steps) => EffectView::Execute(steps.deep_view()),
            Effect::Exit(code) => EffectView::Exit(*code),
        }
    }
}

impl DeepView for Effect {
    type V = EffectView;

    open spec fn deep_view(&self) -> EffectView {
        self@
    }
}

/// The state of the editor.
pub struct Shell {
    buffer: String,
    raw_mode: bool,
    completion_state: CompletionState,
    history: History,
}

/// The mathematical value of a [`Shell`]: the line being typed, whether
/// the terminal is in raw mode, whether the last tab left several
/// candidates pending, and the history store.
pub struct ShellView {
    pub buffer: Seq<char>,
    pub raw_mode: bool,
    pub pending: bool,
    pub entries: Seq<Seq<char>>,
    pub cursor: Option<int>,
    pub flushed: int,
}

/// What a key gives: the state after it, and what is to be done outside.
pub type Reaction = (ShellView, Seq<EffectView>);

/// The number of cells to move the cursor over `text` and `extra` more
/// cells: a cell for each byte of the text, and no more than 65535 cells.
pub open spec fn width(text: Seq<char>, extra: nat) -> nat {
    let cells = vstd::utf8::encode_utf8(text).len() + extra;
    if cells > 65535 {
        65535
    } else {
        cells
    }
}

/// The text that puts `text` in the place of the line `buffer` on the
/// terminal.
pub open spec fn redraw_text(buffer: Seq<char>, text: Seq<char>) -> Seq<char> {
    left_text(width(buffer, 0)) + clear_text() + text
}

/// The text that takes the cursor from the end of the prompt and the line
/// `buffer` to the start of the next line.
pub open spec fn newline_text(buffer: Seq<char>) -> Seq<char> {
    seq!['\n'] + left_text(width(buffer, 2))
}

/// The text that rings the bell.
pub open spec fn bell_text() -> Seq<char> {
    seq!['\x07']
}

/// The prompt, with the line typed so far.
pub open spec fn prompt_text(buffer: Seq<char>) -> Seq<char> {
    "$ "@ + buffer
}

/// The effect that takes the terminal to the mode wanted, unless it is in
/// that mode.
pub open spec fn switch(raw_mode: bool, wanted: bool) -> Seq<EffectView> {
    if raw_mode == wanted {
        Seq::empty()
    } else {
        seq![EffectView::RawMode(wanted)]
    }
}

/// The effects that show `text` on the terminal, which is put into raw
/// mode first.
pub open spec fn display(raw_mode: bool, text: Seq<char>) -> Seq<EffectView> {
    switch(raw_mode, true) + seq![EffectView::Display(text)]
}

/// What running the line `line` comes to: the plan of its pipeline, or the
/// report of the first error in it.
pub open spec fn outcome_of(line: Seq<char>) -> EffectView {
    match tokenize_spec(line) {
        Err(e) => EffectView::Report(scan_message(e)),
        Ok(tokens) => match parse_spec(tokens) {
            Err(e) => EffectView::Report(parse_message(e)),
            Ok(expr) => EffectView::Execute(plan_spec(expr)),
        },
    }
}

/// A character is added to the line and shown.
pub open spec fn typed(s: ShellView, c: char) -> Reaction {
    (ShellView { buffer: s.buffer.push(c), raw_mode: true, ..s }, display(s.raw_mode, seq![c]))
}

/// The last character of the line is dropped and wiped off the terminal;
/// an empty line stays as it is.
pub open spec fn erased(s: ShellView) -> Reaction {
    if s.buffer.len() == 0 {
        (s, Seq::empty())
    } else {
        (
            ShellView { buffer: s.buffer.drop_last(), raw_mode: true, ..s },
            display(s.raw_mode, left_text(1) + clear_text()),
        )
    }
}

/// The history line under the cursor `cursor` takes the place of the line;
/// with no cursor nothing happens.
pub open spec fn recalled(s: ShellView, cursor: Option<int>) -> Reaction {
    match cursor {
        None => (s, Seq::empty()),
        Some(i) => {
            let line = s.entries[i];
            (
                ShellView { buffer: line, raw_mode: true, cursor, ..s },
                display(
                    s.raw_mode,
                    if s.buffer.len() == 0 {
                        line
                    } else {
                        redraw_text(s.buffer, line)
                    },
                ),
            )
        },
    }
}

/// The only candidate, and a space, take the place of the line.
pub open spec fn completed(s: ShellView, candidate: Seq<char>) -> Reaction {
    (
        ShellView { buffer: candidate + " "@, raw_mode: true, pending: false, ..s },
        display(s.raw_mode, redraw_text(s.buffer, candidate + " "@)),
    )
}

/// The bell rings.
pub open spec fn rung(s: ShellView) -> Reaction {
    (ShellView { raw_mode: true, ..s }, display(s.raw_mode, bell_text()))
}

/// Several candidates. If none were pending: their longest common prefix
/// takes the place of the line where it differs from the line and is not
/// empty; else the bell rings and the candidates are pending. If they were
/// pending: they are listed on a line of their own, two spaces between
/// each two, and a new prompt starts with an empty line.
pub open spec fn listed(s: ShellView, found: Seq<Seq<char>>) -> Reaction {
    if !s.pending {
        let prefix = longest_common_prefix(found);
        if prefix.len() > 0 && prefix != s.buffer {
            (
                ShellView { buffer: prefix, raw_mode: true, ..s },
                display(s.raw_mode, redraw_text(s.buffer, prefix)),
            )
        } else {
            (ShellView { pending: true, raw_mode: true, ..s }, display(s.raw_mode, bell_text()))
        }
    } else {
        (
            ShellView { buffer: Seq::empty(), raw_mode: true, pending: false, ..s },
            display(s.raw_mode, newline_text(s.buffer)) + seq![
                EffectView::RawMode(false),
                EffectView::Print(joined(found, "  "@)),
                EffectView::RawMode(true),
                EffectView::Display(prompt_text(Seq::empty())),
            ],
        )
    }
}

/// A tab: with no candidate the bell rings, one candidate completes the
/// line, several are handled as `listed` says.
pub open spec fn tabbed(s: ShellView, found: Seq<Seq<char>>) -> Reaction {
    if found.len() == 0 {
        rung(s)
    } else if found.len() == 1 {
        completed(s, found[0])
    } else {
        listed(s, found)
    }
}

/// The line is submitted: it joins the history, is run with the terminal
/// out of raw mode, and a new prompt starts with an empty line.
pub open spec fn entered(s: ShellView) -> Reaction {
    (
        ShellView {
            buffer: Seq::empty(),
            raw_mode: true,
            entries: s.entries.push(s.buffer),
            cursor: None,
            ..s
        },
        display(s.raw_mode, newline_text(s.buffer)) + seq![
            EffectView::RawMode(false),
            outcome_of(s.buffer),
            EffectView::RawMode(true),
            EffectView::Display(prompt_text(Seq::empty())),
        ],
    )
}

/// What a key does, where `commands` are the names of the commands that
/// can be run. A tab works on the candidates among them, each once, in the
/// order of the dictionary.
pub open spec fn react(s: ShellView, key: Key, commands: Seq<Seq<char>>) -> Reaction {
    match key {
        Key::Char(c) => if c == '\t' {
            tabbed(s, ordered(candidates(commands, s.buffer)))
        } else if c == '\n' {
            entered(s)
        } else {
            typed(s, c)
        },
        Key::Backspace => erased(s),
        Key::Ctrl(c) => if c == 'c' {
            (s, seq![EffectView::Exit(0)])
        } else {
            (s, Seq::empty())
        },
        Key::Up => recalled(s, older(s.cursor, s.entries.len() as int)),
        Key::Down => recalled(s, newer(s.cursor, s.entries.len() as int)),
        Key::Other => (s, Seq::empty()),
    }
}

/// The plan of the pipeline that the line stands for, or the report of the
/// first error in the line.
pub fn interpret(line: &str) -> (effect: Effect)
    ensures
        effect@ == outcome_of(line@),
{
    let tokens = match Tokenizer::tokenize(line) {
        Ok(tokens) => tokens,
        Err(e) => {
            return Effect::Report(e.message());
        },
    };
    let mut parser = Parser::new(tokens);
    match parser.parse() {
        Ok(()) => {},
        Err(e) => {
            return Effect::Report(e.message());
        },
    }
    match parser.ast() {
        Some(expr) => {
            proof {
                lemma_well_formed_supported(expr@);
            }
            match plan(&expr) {
                Ok(steps) => Effect::Execute(steps),
                Err(e) => Effect::Report(e.message()),
            }
        },
        None => Effect::Report(crate::parser::ParseError::MissingCommand.message()),
    }
}

/// The number of cells to move the cursor over a text of `len` bytes and
/// `extra` more cells.
fn cells(text: &str, extra: u16) -> (n: u16)
    requires
        extra <= 2,
    ensures
        n == width(text@, extra as nat),
{
    let len = text.as_bytes().len();
    if len > 65535 - extra as usize {
        65535
    } else {
        len as u16 + extra
    }
}

/// The text that puts `text` in the place of the line `buffer`.
fn redraw(buffer: &str, text: &str) -> (shown: String)
    ensures
        shown@ == redraw_text(buffer@, text@),
{
    let mut shown = cursor_left(cells(buffer, 0));
    shown.push_str(clear_after_cursor().as_str());
    shown.push_str(text);
    shown
}

impl View for Shell {
    type V = ShellView;

    closed spec fn view(&self) -> ShellView {
        ShellView {
            buffer: self.buffer@,
            raw_mode: self.raw_mode,
            pending: self.completion_state == CompletionState::Multiple,
            entries: self.history.entries(),
            cursor: self.history.cursor(),
            flushed: self.history.flushed(),
        }
    }
}

impl Shell {
    /// The history store of the editor is well formed.
    pub closed spec fn wf(&self) -> bool {
        self.history.wf()
    }

    /// An editor with an empty line and an empty history, on a terminal in
    /// raw mode.
    pub fn new() -> (shell: Self)
        ensures
            shell.wf(),
            shell@ == (ShellView {
                buffer: Seq::empty(),
                raw_mode: true,
                pending: false,
                entries: Seq::empty(),
                cursor: None,
                flushed: 0,
            }),
    {
        Self {
            buffer: String::new(),
            raw_mode: true,
            completion_state: CompletionState::Idle,
            history: History::new(),
        }
    }

    /// The effects that show the prompt and the line typed so far.
    pub fn prompt(&mut self) -> (out: Vec<Effect>)
        ensures
            final(self).wf() == old(self).wf(),
            final(self)@ == (ShellView { raw_mode: true, ..old(self)@ }),
            out.deep_view() == display(old(self)@.raw_mode, prompt_text(old(self)@.buffer)),
    {
        let mut out: Vec<Effect> = Vec::new();
        assert(out.deep_view() =~= Seq::<EffectView>::empty());
        let mut text = "$ ".to_owned();
        text.push_str(self.buffer.as_str());
        self.display(&mut out, text);
        assert(out.deep_view() =~= display(old(self)@.raw_mode, prompt_text(old(self)@.buffer)));
        out
    }

    fn display(&mut self, out: &mut Vec<Effect>, text: String)
        ensures
            final(self).wf() == old(self).wf(),
            final(self)@ == (ShellView { raw_mode: true, ..old(self)@ }),
            final(out).deep_view() == old(out).deep_view() + display(old(self)@.raw_mode, text@),
    {
        let ghost before = out.deep_view();
        self.set_raw_mode(out, true);
        let ghost switched = out.deep_view();
        out.push(Effect::Display(text));
        assert(out.deep_view() =~= switched.push(EffectView::Display(text@)));
        assert(out.deep_view() =~= before + display(old(self)@.raw_mode, text@));
    }

    fn bell(&mut self, out: &mut Vec<Effect>)
        ensures
            final(self).wf() == old(self).wf(),
            final(self)@ == (ShellView { raw_mode: true, ..old(self)@ }),
            final(out).deep_view() == old(out).deep_view() + display(
                old(self)@.raw_mode,
                bell_text(),
            ),
    {
        let mut text = String::new();
        text.push('\x07');
        assert(text@ =~= bell_text());
        self.display(out, text);
    }

    fn set_raw_mode(&mut self, out: &mut Vec<Effect>, raw_mode: bool)
        ensures
            final(self).wf() == old(self).wf(),
            final(self)@ == (ShellView { raw_mode, ..old(self)@ }),
            final(out).deep_view() == old(out).deep_view() + switch(old(self)@.raw_mode, raw_mode),
    {
        let ghost before = out.deep_view();
        if self.raw_mode == raw_mode {
            assert(before + switch(old(self)@.raw_mode, raw_mode) =~= before);
            return ;
        }
        self.raw_mode = raw_mode;
        out.push(Effect::RawMode(raw_mode));
        assert(out.deep_view() =~= before + switch(old(self)@.raw_mode, raw_mode));
    }

    /// What the key does to the editor, and what is to be done outside in
    /// answer to it, in this order. `commands` holds the names of the
    /// commands that can be run, in any order; a tab sorts the candidates
    /// among them.
    pub fn handle_key(&mut self, key: Key, commands: &Vec<String>) -> (out: Vec<Effect>)
        requires
            old(self).wf(),
        ensures
            final(self).wf(),
            (final(self)@, out.deep_view()) == react(old(self)@, key, commands.deep_view()),
    {
        let mut out: Vec<Effect> = Vec::new();
        assert(out.deep_view() =~= Seq::<EffectView>::empty());
        match key {
            Key::Char(c) => {
                if c == '\t' {
                    self.handle_autocompletion(commands, &mut out);
                } else if c == '\n' {
                    self.handle_enter(&mut out);
                } else {
                    let mut text = String::new();
                    text.push(c);
                    assert(text@ =~= seq![c]);
                    self.display(&mut out, text);
                    self.buffer.push(c);
                    assert(out.deep_view() =~= display(old(self)@.raw_mode, seq![c]));
                }
            },
            Key::Backspace => {
                if !self.buffer.as_str().is_empty() {
                    let kept = crate::text::chars_of(self.buffer.as_str());
                    self.buffer = crate::text::string_of(&kept, 0, kept.len() - 1);
                    let mut text = cursor_left(1);
                    text.push_str(clear_after_cursor().as_str());
                    self.display(&mut out, text);
                    assert(out.deep_view() =~= display(
                        old(self)@.raw_mode,
                        left_text(1) + clear_text(),
                    ));
                    assert(self.buffer@ =~= old(self)@.buffer.drop_last());
                }
            },
            Key::Ctrl(c) => {
                if c == 'c' {
                    out.push(Effect::Exit(0));
                    assert(out.deep_view() =~= seq![EffectView::Exit(0)]);
                }
            },
            Key::Up => {
                self.handle_up_arrow(&mut out);
            },
            Key::Down => {
                self.handle_down_arrow(&mut out);
            },
            Key::Other => {},
        }
        out
    }

    fn recall(&mut self, out: &mut Vec<Effect>, line: String)
        requires
            old(self).wf(),
            old(out).deep_view() == Seq::<EffectView>::empty(),
        ensures
            final(self).wf(),
            final(self)@ == (ShellView { buffer: line@, raw_mode: true, ..old(self)@ }),
            final(out).deep_view() == display(
                old(self)@.raw_mode,
                if old(self)@.buffer.len() == 0 {
                    line@
                } else {
                    redraw_text(old(self)@.buffer, line@)
                },
            ),
    {
        let shown = if self.buffer.as_str().is_empty() {
            line.clone()
        } else {
            redraw(self.buffer.as_str(), line.as_str())
        };
        self.display(out, shown);
        self.buffer = line;
        assert(out.deep_view() =~= display(old(self)@.raw_mode, shown@));
    }

    fn handle_up_arrow(&mut self, out: &mut Vec<Effect>)
        requires
            old(self).wf(),
            old(out).deep_view() == Seq::<EffectView>::empty(),
        ensures
            final(self).wf(),
            (final(self)@, final(out).deep_view()) == recalled(
                old(self)@,
                older(old(self)@.cursor, old(self)@.entries.len() as int),
            ),
    {
        proof {
            self.history.lemma_wf();
        }
        let command = match self.history.prev() {
            Some(line) => line.clone(),
            None => {
                return ;
            },
        };
        self.recall(out, command);
    }

    fn handle_down_arrow(&mut self, out: &mut Vec<Effect>)
        requires
            old(self).wf(),
            old(out).deep_view() == Seq::<EffectView>::empty(),
        ensures
            final(self).wf(),
            (final(self)@, final(out).deep_view()) == recalled(
                old(self)@,
                newer(old(self)@.cursor, old(self)@.entries.len() as int),
            ),
    {
        let command = match self.history.next() {
            Some(line) => line.clone(),
            None => {
                return ;
            },
        };
        self.recall(out, command);
    }

    fn handle_autocompletion(&mut self, commands: &Vec<String>, out: &mut Vec<Effect>)
        requires
            old(self).wf(),
            old(out).deep_view() == Seq::<EffectView>::empty(),
        ensures
            final(self).wf(),
            (final(self)@, final(out).deep_view()) == tabbed(
                old(self)@,
                ordered(candidates(commands.deep_view(), old(self)@.buffer)),
            ),
    {
        let found = sort(&completions(commands, self.buffer.as_str()));
        if found.len() == 0 {
            self.bell(out);
            assert(out.deep_view() =~= display(old(self)@.raw_mode, bell_text()));
        } else if found.len() == 1 {
            self.single_completion(found[0].clone(), out);
        } else {
            self.list_or_extend(&found, out);
        }
    }

    fn prefix_completion(&mut self, prefix: String, out: &mut Vec<Effect>)
        requires
            old(self).wf(),
            old(out).deep_view() == Seq::<EffectView>::empty(),
        ensures
            final(self).wf(),
            final(self)@ == (ShellView { buffer: prefix@, raw_mode: true, ..old(self)@ }),
            final(out).deep_view() == display(
                old(self)@.raw_mode,
                redraw_text(old(self)@.buffer, prefix@),
            ),
    {
        let shown = redraw(self.buffer.as_str(), prefix.as_str());
        self.display(out, shown);
        self.buffer = prefix;
        assert(out.deep_view() =~= display(old(self)@.raw_mode, shown@));
    }

    /// What a tab does when it finds the several candidates `completions`,
    /// which it takes each once, in the order of the dictionary.
    pub fn multiple_completions(&mut self, completions: &Vec<String>) -> (out: Vec<Effect>)
        requires
            old(self).wf(),
        ensures
            final(self).wf(),
            (final(self)@, out.deep_view()) == listed(
                old(self)@,
                ordered(completions.deep_view()),
            ),
    {
        let mut out: Vec<Effect> = Vec::new();
        assert(out.deep_view() =~= Seq::<EffectView>::empty());
        let found = sort(completions);
        self.list_or_extend(&found, &mut out);
        out
    }

    fn list_or_extend(&mut self, completions: &Vec<String>, out: &mut Vec<Effect>)
        requires
            old(self).wf(),
            old(out).deep_view() == Seq::<EffectView>::empty(),
        ensures
            final(self).wf(),
            (final(self)@, final(out).deep_view()) == listed(old(self)@, completions.deep_view()),
    {
        if self.completion_state == CompletionState::Idle {
            let prefix = completions_prefix(completions);
            if !prefix.as_str().is_empty() && !crate::text::same(
                prefix.as_str(),
                self.buffer.as_str(),
            ) {
                self.prefix_completion(prefix, out);
            } else {
                self.completion_state = CompletionState::Multiple;
                self.bell(out);
                assert(out.deep_view() =~= display(old(self)@.raw_mode, bell_text()));
            }
            return ;
        }
        self.newline(out);
        self.set_raw_mode(out, false);
        let ghost shown = out.deep_view();
        let list = join(completions, "  ");
        out.push(Effect::Print(list));
        assert(out.deep_view() =~= shown.push(EffectView::Print(list@)));
        self.buffer = String::new();
        self.completion_state = CompletionState::Idle;
        self.set_raw_mode(out, true);
        let ghost ready = out.deep_view();
        let mark = "$ ".to_owned();
        out.push(Effect::Display(mark));
        assert(out.deep_view() =~= ready.push(EffectView::Display(mark@)));
        assert("$ "@ + Seq::<char>::empty() =~= "$ "@);
        assert(out.deep_view() =~= display(old(self)@.raw_mode, newline_text(old(self)@.buffer))
            + seq![
            EffectView::RawMode(false),
            EffectView::Print(joined(completions.deep_view(), "  "@)),
            EffectView::RawMode(true),
            EffectView::Display(prompt_text(Seq::empty())),
        ]);
    }

    fn newline(&mut self, out: &mut Vec<Effect>)
        requires
            old(out).deep_view() == Seq::<EffectView>::empty(),
        ensures
            final(self).wf() == old(self).wf(),
            final(self)@ == (ShellView { raw_mode: true, ..old(self)@ }),
            final(out).deep_view() == display(
                old(self)@.raw_mode,
                newline_text(old(self)@.buffer),
            ),
    {
        let mut text = String::new();
        text.push('\n');
        text.push_str(cursor_left(cells(self.buffer.as_str(), 2)).as_str());
        assert(text@ =~= newline_text(self.buffer@));
        self.display(out, text);
        assert(out.deep_view() =~= display(old(self)@.raw_mode, newline_text(old(self)@.buffer)));
    }

    fn handle_enter(&mut self, out: &mut Vec<Effect>)
        requires
            old(self).wf(),
            old(out).deep_view() == Seq::<EffectView>::empty(),
        ensures
            final(self).wf(),
            (final(self)@, final(out).deep_view()) == entered(old(self)@),
    {
        self.newline(out);
        self.history.add(self.buffer.clone());
        let effect = interpret(self.buffer.as_str());
        self.set_raw_mode(out, false);
        let ghost shown = out.deep_view();
        let ghost run = effect@;
        out.push(effect);
        assert(out.deep_view() =~= shown.push(run));
        self.buffer = String::new();
        self.set_raw_mode(out, true);
        let ghost ready = out.deep_view();
        let mark = "$ ".to_owned();
        out.push(Effect::Display(mark));
        assert(out.deep_view() =~= ready.push(EffectView::Display(mark@)));
        assert("$ "@ + Seq::<char>::empty() =~= "$ "@);
        assert(out.deep_view() =~= display(old(self)@.raw_mode, newline_text(old(self)@.buffer))
            + seq![
            EffectView::RawMode(false),
            outcome_of(old(self)@.buffer),
            EffectView::RawMode(true),
            EffectView::Display(prompt_text(Seq::empty())),
        ]);
    }

    fn single_completion(&mut self, completion: String, out: &mut Vec<Effect>)
        requires
            old(self).wf(),
            old(out).deep_view() == Seq::<EffectView>::empty(),
        ensures
            final(self).wf(),
            (final(self)@, final(out).deep_view()) == completed(old(self)@, completion@),
    {
        let mut line = completion;
        line.push_str(" ");
        let shown = redraw(self.buffer.as_str(), line.as_str());
        self.display(out, shown);
        self.buffer = line;
        self.completion_state = CompletionState::Idle;
        assert(out.deep_view() =~= display(old(self)@.raw_mode, shown@));
    }

    /// The history store of the editor, to read or to change.
    pub fn history(&mut self) -> (store: &mut History)
        ensures
            store.wf() == old(self).wf(),
            store.entries() == old(self)@.entries,
            store.cursor() == old(self)@.cursor,
            store.flushed() == old(self)@.flushed,
            final(self).wf() == final(store).wf(),
            final(self)@ == (ShellView {
                entries: final(store).entries(),
                cursor: final(store).cursor(),
                flushed: final(store).flushed(),
                ..old(self)@
            }),
    {
        &mut self.history
    }

    /// The line typed so far.
    pub fn buffer(&self) -> (line: &String)
        ensures
            line@ == self@.buffer,
    {
        &self.buffer
    }
}

} // verus!
