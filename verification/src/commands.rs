//! The commands of a pipeline: which of them the interpreter runs itself,
//! what each of those writes and asks for, and how a program is found.

use crate::completion::{insert_sorted, sorted};
use crate::text::{
    chars_of, decimal, index_of, join, joined, lemma_index_of_bounds, lemma_index_of_skip,
    is_digit, parse_integer, parse_number, parse_usize, push_decimal, same, string_of, unlines,
};
use vstd::prelude::*;

verus! {

/// Whether `name` names a command that the interpreter runs itself.
pub open spec fn is_builtin_name(name: Seq<char>) -> bool {
    name == "echo"@ || name == "cd"@ || name == "pwd"@ || name == "type"@ || name == "exit"@
        || name == "history"@
}

/// Whether `name` names a command that the interpreter runs itself.
pub fn is_builtin(name: &str) -> (r: bool)
    ensures
        r == is_builtin_name(name@),
{
    same(name, "echo") || same(name, "cd") || same(name, "pwd") || same(name, "type") || same(
        name,
        "exit",
    ) || same(name, "history")
}

/// Why a command of the interpreter cannot be built from its arguments.
#[derive(Debug, Clone, Copy, PartialEq, Eq, Structural)]
pub enum UsageError {
    /// An argument that the command needs is missing.
    MissingArgument,
    /// An argument that has to be a number is not one, or is too large.
    NotANumber,
}

/// What is written to standard error where the command `name` cannot be
/// built from its arguments.
pub open spec fn usage_message(name: Seq<char>, e: UsageError) -> Seq<char> {
    match e {
        UsageError::MissingArgument => name + ": missing argument\n"@,
        UsageError::NotANumber => name + ": numeric argument required\n"@,
    }
}

impl UsageError {
    /// What is written to standard error where the command `name` cannot
    /// be built from its arguments.
    pub fn message(&self, name: &str) -> (text: String)
        ensures
            text@ == usage_message(name@, *self),
    {
        let mut text = name.to_owned();
        match self {
            UsageError::MissingArgument => text.push_str(": missing argument\n"),
            UsageError::NotANumber => text.push_str(": numeric argument required\n"),
        }
        text
    }
}

/// `cd`: change the working directory.
#[derive(Debug, PartialEq, Eq)]
pub struct Cd {
    pub target_directory: Option<String>,
}

/// `type`: say what a command name stands for.
#[derive(Debug, PartialEq, Eq)]
pub struct Type {
    pub command: String,
}

/// `echo`: write the arguments.
#[derive(Debug, PartialEq, Eq)]
pub struct Echo {
    pub args: Vec<String>,
}

/// `pwd`: write the working directory.
#[derive(Debug, PartialEq, Eq)]
pub struct Pwd;

/// `exit`: leave the interpreter.
#[derive(Debug, PartialEq, Eq)]
pub struct Exit {
    pub code: Option<i32>,
}

/// A program to be found and started.
#[derive(Debug, PartialEq, Eq)]
pub struct Binary {
    pub path: String,
    pub args: Vec<String>,
}

/// `history`: list the history, or exchange it with a file.
#[derive(Debug, PartialEq, Eq)]
pub struct History {
    pub argument: HistoryArg,
}

/// What `history` was asked to do.
#[derive(Debug, PartialEq, Eq)]
pub enum HistoryArg {
    /// List every line.
    All,
    /// List the newest lines, this many.
    Amount(usize),
    /// Read the lines of a file into the history.
    Read(String),
    /// Write the history to a file.
    Write(String),
    /// Append to a file the lines that were not appended before.
    Append(String),
}

/// A command, by what runs it.
#[derive(Debug, PartialEq, Eq)]
pub enum Command {
    Cd(Cd),
    Pwd(Pwd),
    Type(Type),
    Echo(Echo),
    Exit(Exit),
    History(History),
    Binary(Binary),
}

/// The mathematical value of a [`HistoryArg`].
pub enum HistoryArgView {
    All,
    Amount(nat),
    Read(Seq<char>),
    Write(Seq<char>),
    Append(Seq<char>),
}

/// The mathematical value of a [`Command`].
pub enum CommandView {
    Cd { target: Option<Seq<char>> },
    Pwd,
    Type { command: Seq<char> },
    Echo { args: Seq<Seq<char>> },
    Exit { code: Option<i32> },
    History { argument: HistoryArgView },
    Binary { path: Seq<char>, args: Seq<Seq<char>> },
}

/// The text of `s`, where there is one.
pub open spec fn text_of(s: Option<String>) -> Option<Seq<char>> {
    match s {
        Some(s) => Some(s@),
        None => None,
    }
}

impl View for HistoryArg {
    type V = HistoryArgView;

    open spec fn view(&self) -> HistoryArgView {
        match self {
            HistoryArg::All => HistoryArgView::All,
            HistoryArg::Amount(n) => HistoryArgView::Amount(*n as nat),
            HistoryArg::Read(p) => HistoryArgView::Read(p@),
            HistoryArg::Write(p) => HistoryArgView::Write(p@),
            HistoryArg::Append(p) => HistoryArgView::Append(p@),
        }
    }
}

impl View for Command {
    type V = CommandView;

    open spec fn view(&self) -> CommandView {
        match self {
            Command::Cd(c) => CommandView::Cd { target: text_of(c.target_directory) },
            Command::Pwd(_) => CommandView::Pwd,
            Command::Type(t) => CommandView::Type { command: t.command@ },
            Command::Echo(e) => CommandView::Echo { args: e.args.deep_view() },
            Command::Exit(e) => CommandView::Exit { code: e.code },
            Command::History(h) => CommandView::History { argument: h.argument@ },
            Command::Binary(b) => CommandView::Binary { path: b.path@, args: b.args.deep_view() },
        }
    }
}

/// What the arguments of `history` ask for: nothing, a file after `-r`,
/// `-w` or `-a`, or a number of lines.
pub open spec fn history_arg_spec(args: Seq<Seq<char>>) -> Result<HistoryArgView, UsageError> {
    if args.len() == 0 {
        Ok(HistoryArgView::All)
    } else if args[0] == "-r"@ || args[0] == "-w"@ || args[0] == "-a"@ {
        if args.len() < 2 {
            Err(UsageError::MissingArgument)
        } else if args[0] == "-r"@ {
            Ok(HistoryArgView::Read(args[1]))
        } else if args[0] == "-w"@ {
            Ok(HistoryArgView::Write(args[1]))
        } else {
            Ok(HistoryArgView::Append(args[1]))
        }
    } else {
        match parse_number(args[0]) {
            Some(n) => if n <= usize::MAX {
                Ok(HistoryArgView::Amount(n))
            } else {
                Err(UsageError::NotANumber)
            },
            None => Err(UsageError::NotANumber),
        }
    }
}

/// The exit code that the arguments of `exit` name: the first argument
/// where it writes an integer that fits, else none.
pub open spec fn exit_code_spec(args: Seq<Seq<char>>) -> Option<i32> {
    if args.len() == 0 {
        None
    } else {
        match parse_integer(args[0]) {
            Some(v) => if i32::MIN <= v <= i32::MAX {
                Some(v as i32)
            } else {
                None
            },
            None => None,
        }
    }
}

/// The command that a name and its arguments stand for.
pub open spec fn command_spec(name: Seq<char>, args: Seq<Seq<char>>) -> Result<
    CommandView,
    UsageError,
> {
    if name == "cd"@ {
        Ok(
            CommandView::Cd {
                target: if args.len() > 0 {
                    Some(args[0])
                } else {
                    None
                },
            },
        )
    } else if name == "pwd"@ {
        Ok(CommandView::Pwd)
    } else if name == "echo"@ {
        Ok(CommandView::Echo { args })
    } else if name == "exit"@ {
        Ok(CommandView::Exit { code: exit_code_spec(args) })
    } else if name == "type"@ {
        if args.len() > 0 {
            Ok(CommandView::Type { command: args[0] })
        } else {
            Err(UsageError::MissingArgument)
        }
    } else if name == "history"@ {
        match history_arg_spec(args) {
            Ok(argument) => Ok(CommandView::History { argument }),
            Err(e) => Err(e),
        }
    } else {
        Ok(CommandView::Binary { path: name, args })
    }
}

/// Each of the six names of the interpreter's own commands gives its own
/// kind of command, and every other name a program to be found. `cd`,
/// `pwd`, `echo` and `exit` are built from any arguments; `type` needs
/// one argument, and `history` arguments that it understands.
pub proof fn lemma_command_kinds(name: Seq<char>, args: Seq<Seq<char>>)
    ensures
        !is_builtin_name(name) ==> command_spec(name, args) == Ok::<CommandView, UsageError>(
            CommandView::Binary { path: name, args },
        ),
        name == "cd"@ ==> (command_spec(name, args) matches Ok(c) && c is Cd),
        name == "pwd"@ ==> command_spec(name, args) == Ok::<CommandView, UsageError>(
            CommandView::Pwd,
        ),
        name == "echo"@ ==> command_spec(name, args) == Ok::<CommandView, UsageError>(
            CommandView::Echo { args },
        ),
        name == "exit"@ ==> (command_spec(name, args) matches Ok(c) && c is Exit),
        name == "type"@ ==> (match command_spec(name, args) {
            Ok(c) => args.len() > 0 && c == (CommandView::Type { command: args[0] }),
            Err(e) => args.len() == 0,
        }),
        name == "history"@ ==> (match command_spec(name, args) {
            Ok(c) => c is History && history_arg_spec(args) is Ok,
            Err(e) => history_arg_spec(args) == Err::<HistoryArgView, UsageError>(e),
        }),
{
    reveal_strlit("cd");
    reveal_strlit("pwd");
    reveal_strlit("echo");
    reveal_strlit("exit");
    reveal_strlit("type");
    reveal_strlit("history");
    assert("cd"@.len() == 2 && "pwd"@.len() == 3 && "history"@.len() == 7);
    assert("echo"@.len() == 4 && "exit"@.len() == 4 && "type"@.len() == 4);
    assert("echo"@[1] != "exit"@[1]);
    assert("echo"@[0] != "type"@[0]);
    assert("exit"@[0] != "type"@[0]);
}

/// The value of a command that was built, or why none was built.
pub open spec fn built(r: Result<Command, UsageError>) -> Result<CommandView, UsageError> {
    match r {
        Ok(command) => Ok(command@),
        Err(e) => Err(e),
    }
}

/// The integer that `s` writes in decimal, if it writes one that fits.
fn parse_i32(s: &str) -> (r: Option<i32>)
    ensures
        r == match parse_integer(s@) {
            Some(v) => if i32::MIN <= v <= i32::MAX {
                Some(v as i32)
            } else {
                None
            },
            None => None::<i32>,
        },
{
    let chars = chars_of(s);
    if chars.len() > 0 && chars[0] == '-' {
        let body = string_of(&chars, 1, chars.len());
        assert(body@ =~= s@.drop_first());
        if body.as_str().is_empty() {
            return None;
        }
        if chars[1] == '+' {
            assert(!is_digit(body@[0]));
            return None;
        }
        match parse_usize(body.as_str()) {
            Some(v) => if v <= 2147483648 {
                let w: i64 = 0 - (v as i64);
                Some(w as i32)
            } else {
                None
            },
            None => None,
        }
    } else {
        match parse_usize(s) {
            Some(v) => if v <= 2147483647 {
                Some(v as i32)
            } else {
                None
            },
            None => None,
        }
    }
}

impl HistoryArg {
    /// What the arguments of `history` ask for.
    pub fn new(args: &[String]) -> (r: Result<Self, UsageError>)
        ensures
            match r {
                Ok(a) => history_arg_spec(args.deep_view()) == Ok::<HistoryArgView, UsageError>(
                    a@,
                ),
                Err(e) => history_arg_spec(args.deep_view()) == Err::<HistoryArgView, UsageError>(
                    e,
                ),
            },
    {
        if args.len() == 0 {
            return Ok(Self::All);
        }
        let first = args[0].as_str();
        assert(args.deep_view()[0] == first@);
        if same(first, "-r") || same(first, "-w") || same(first, "-a") {
            if args.len() < 2 {
                return Err(UsageError::MissingArgument);
            }
            assert(args.deep_view()[1] == args[1]@);
            let file = args[1].clone();
            if same(first, "-r") {
                Ok(Self::Read(file))
            } else if same(first, "-w") {
                Ok(Self::Write(file))
            } else {
                Ok(Self::Append(file))
            }
        } else {
            match parse_usize(first) {
                Some(n) => Ok(Self::Amount(n)),
                None => Err(UsageError::NotANumber),
            }
        }
    }
}

impl Command {
    /// The command that `name` and `args` stand for.
    pub fn new(name: String, args: Vec<String>) -> (r: Result<Self, UsageError>)
        ensures
            match r {
                Ok(c) => command_spec(name@, args.deep_view()) == Ok::<CommandView, UsageError>(
                    c@,
                ),
                Err(e) => command_spec(name@, args.deep_view()) == Err::<CommandView, UsageError>(
                    e,
                ),
            },
    {
        let ghost words = args.deep_view();
        assert(args.len() > 0 ==> words[0] == args[0]@);
        if same(name.as_str(), "cd") {
            let target_directory = if args.len() > 0 {
                Some(args[0].clone())
            } else {
                None
            };
            Ok(Self::Cd(Cd { target_directory }))
        } else if same(name.as_str(), "pwd") {
            Ok(Self::Pwd(Pwd))
        } else if same(name.as_str(), "echo") {
            Ok(Self::Echo(Echo { args }))
        } else if same(name.as_str(), "exit") {
            let code = if args.len() > 0 {
                parse_i32(args[0].as_str())
            } else {
                None
            };
            Ok(Self::Exit(Exit { code }))
        } else if same(name.as_str(), "type") {
            if args.len() > 0 {
                Ok(Self::Type(Type { command: args[0].clone() }))
            } else {
                Err(UsageError::MissingArgument)
            }
        } else if same(name.as_str(), "history") {
            let given = args.as_slice();
            assert(given.deep_view() =~= words);
            match HistoryArg::new(given) {
                Ok(argument) => Ok(Self::History(History { argument })),
                Err(e) => Err(e),
            }
        } else {
            Ok(Self::Binary(Binary { path: name, args }))
        }
    }
}

/// What a command needs to learn from outside before it can run.
#[derive(Debug, PartialEq, Eq)]
pub enum Need {
    /// Nothing.
    Nothing,
    /// The file that the search path gives for this command name.
    Lookup(String),
    /// The directory that this path leads to from the working directory.
    Resolve(String),
    /// The home directory.
    Home,
    /// The working directory.
    WorkingDirectory,
}

/// The mathematical value of a [`Need`].
pub enum NeedView {
    Nothing,
    Lookup(Seq<char>),
    Resolve(Seq<char>),
    Home,
    WorkingDirectory,
}

impl View for Need {
    type V = NeedView;

    open spec fn view(&self) -> NeedView {
        match self {
            Need::Nothing => NeedView::Nothing,
            Need::Lookup(s) => NeedView::Lookup(s@),
            Need::Resolve(s) => NeedView::Resolve(s@),
            Need::Home => NeedView::Home,
            Need::WorkingDirectory => NeedView::WorkingDirectory,
        }
    }
}

/// What is left to do outside once a command has run.
#[derive(Debug, PartialEq, Eq)]
pub enum Action {
    /// Nothing.
    Nothing,
    /// Make this directory the working directory.
    ChangeDirectory(String),
    /// Read this file and add its lines to the history.
    ReadHistory(String),
    /// Replace what this file holds by the text.
    WriteHistory { path: String, text: String },
    /// Add the text to the end of this file.
    AppendHistory { path: String, text: String },
    /// Start the program `program` under the name `name` with the
    /// arguments `args`.
    Spawn { program: String, name: String, args: Vec<String> },
    /// Leave the interpreter with this code. Before that the text, which
    /// holds the history, replaces what the history file holds, where a
    /// history file is configured.
    Exit { code: i32, history: String },
}

/// The mathematical value of an [`Action`].
pub enum ActionView {
    Nothing,
    ChangeDirectory(Seq<char>),
    ReadHistory(Seq<char>),
    WriteHistory { path: Seq<char>, text: Seq<char> },
    AppendHistory { path: Seq<char>, text: Seq<char> },
    Spawn { program: Seq<char>, name: Seq<char>, args: Seq<Seq<char>> },
    Exit { code: i32, history: Seq<char> },
}

impl View for Action {
    type V = ActionView;

    open spec fn view(&self) -> ActionView {
        match self {
            Action::Nothing => ActionView::Nothing,
            Action::ChangeDirectory(d) => ActionView::ChangeDirectory(d@),
            Action::ReadHistory(p) => ActionView::ReadHistory(p@),
            Action::WriteHistory { path, text } => ActionView::WriteHistory {
                path: path@,
                text: text@,
            },
            Action::AppendHistory { path, text } => ActionView::AppendHistory {
                path: path@,
                text: text@,
            },
            Action::Spawn { program, name, args } => ActionView::Spawn {
                program: program@,
                name: name@,
                args: args.deep_view(),
            },
            Action::Exit { code, history } => ActionView::Exit { code: *code, history: history@ },
        }
    }
}

/// The line that reports a failure: where it happened, a colon and a
/// space, why, and a line feed.
pub open spec fn complaint_text(context: Seq<char>, why: Seq<char>) -> Seq<char> {
    context + ": "@ + why + seq!['\n']
}

/// The line that reports a failure: where it happened, a colon and a
/// space, why, and a line feed.
pub fn complaint(context: &str, why: &str) -> (text: String)
    ensures
        text@ == complaint_text(context@, why@),
{
    let mut text = context.to_owned();
    text.push_str(": ");
    text.push_str(why);
    text.push('\n');
    text
}

/// What is written to standard error where an action could not be carried
/// out for the reason `why`: the command and what it was to act on, and
/// the reason. Leaving the interpreter and doing nothing cannot fail.
pub open spec fn failure_line(action: ActionView, why: Seq<char>) -> Seq<char> {
    match action {
        ActionView::Nothing => Seq::empty(),
        ActionView::ChangeDirectory(directory) => complaint_text("cd: "@ + directory, why),
        ActionView::ReadHistory(path) => complaint_text("history: "@ + path, why),
        ActionView::WriteHistory { path, text } => complaint_text("history: "@ + path, why),
        ActionView::AppendHistory { path, text } => complaint_text("history: "@ + path, why),
        ActionView::Spawn { program, name, args } => complaint_text(name, why),
        ActionView::Exit { code, history } => Seq::empty(),
    }
}

/// The line that reports that the command `command` failed on `subject`.
fn failure_text(command: &str, subject: &str, why: &str) -> (text: String)
    ensures
        text@ == complaint_text(command@ + subject@, why@),
{
    let mut context = command.to_owned();
    context.push_str(subject);
    complaint(context.as_str(), why)
}

impl Action {
    /// What is written to standard error where the action could not be
    /// carried out for the reason `why`.
    pub fn failure(&self, why: &str) -> (text: String)
        ensures
            text@ == failure_line(self@, why@),
    {
        match self {
            Action::Nothing => String::new(),
            Action::ChangeDirectory(directory) => failure_text("cd: ", directory.as_str(), why),
            Action::ReadHistory(path) => failure_text("history: ", path.as_str(), why),
            Action::WriteHistory { path, text } => failure_text("history: ", path.as_str(), why),
            Action::AppendHistory { path, text } => failure_text("history: ", path.as_str(), why),
            Action::Spawn { program, name, args } => complaint(name.as_str(), why),
            Action::Exit { code, history } => String::new(),
        }
    }
}

/// What a command did: the text for its standard output, the text for its
/// standard error, and what is left to do outside.
#[derive(Debug, PartialEq, Eq)]
pub struct Outcome {
    pub stdout: String,
    pub stderr: String,
    pub action: Action,
}

/// The mathematical value of an [`Outcome`].
pub struct OutcomeView {
    pub stdout: Seq<char>,
    pub stderr: Seq<char>,
    pub action: ActionView,
}

impl View for Outcome {
    type V = OutcomeView;

    open spec fn view(&self) -> OutcomeView {
        OutcomeView { stdout: self.stdout@, stderr: self.stderr@, action: self.action@ }
    }
}

/// An outcome that writes nothing.
pub open spec fn does(action: ActionView) -> OutcomeView {
    OutcomeView { stdout: Seq::empty(), stderr: Seq::empty(), action }
}

/// An outcome that writes `text` to standard output and does nothing else.
pub open spec fn says(text: Seq<char>) -> OutcomeView {
    OutcomeView { stdout: text, stderr: Seq::empty(), action: ActionView::Nothing }
}

/// An outcome that writes `text` to standard error and does nothing else.
pub open spec fn complains(text: Seq<char>) -> OutcomeView {
    OutcomeView { stdout: Seq::empty(), stderr: text, action: ActionView::Nothing }
}

/// Where the last component of `path` starts: after its last `/`.
pub open spec fn name_start(path: Seq<char>) -> int
    decreases path.len(),
{
    if path.len() == 0 {
        0
    } else if path.last() == '/' {
        path.len() as int
    } else {
        name_start(path.drop_last())
    }
}

/// The last component of `path`: what follows its last `/`.
pub open spec fn file_name(path: Seq<char>) -> Seq<char> {
    path.subrange(name_start(path), path.len() as int)
}

/// The lines `entries[from..to]`, each after two spaces, its number counted
/// from one and a space, and each followed by a line feed.
pub open spec fn listing(entries: Seq<Seq<char>>, from: int, to: int) -> Seq<char>
    decreases to - from,
{
    if to <= from {
        Seq::empty()
    } else {
        listing(entries, from, to - 1) + "  "@ + decimal(to as nat) + " "@ + entries[to - 1]
            + seq!['\n']
    }
}

/// What `cd` needs: the home directory where it has no target or the
/// target `~`, else the directory that its target leads to.
pub open spec fn cd_need(target: Option<Seq<char>>) -> NeedView {
    match target {
        Some(path) => if path == "~"@ {
            NeedView::Home
        } else {
            NeedView::Resolve(path)
        },
        None => NeedView::Home,
    }
}

/// What `cd` does: with a directory, it asks for the change; without one,
/// it complains and asks for nothing.
pub open spec fn cd_outcome(target: Option<Seq<char>>, answer: Option<Seq<char>>) -> OutcomeView {
    match answer {
        Some(directory) => does(ActionView::ChangeDirectory(directory)),
        None => complains(
            "cd: "@ + (match target {
                Some(path) => path,
                None => "~"@,
            }) + ": No such file or directory\n"@,
        ),
    }
}

/// What `type` does.
pub open spec fn type_outcome(command: Seq<char>, answer: Option<Seq<char>>) -> OutcomeView {
    if is_builtin_name(command) {
        says(command + " is a shell builtin\n"@)
    } else {
        match answer {
            Some(file) => says(command + " is "@ + file + seq!['\n']),
            None => complains(command + ": not found\n"@),
        }
    }
}

/// What `echo` does.
pub open spec fn echo_outcome(args: Seq<Seq<char>>) -> OutcomeView {
    says(joined(args, " "@) + seq!['\n'])
}

/// What `pwd` does.
pub open spec fn pwd_outcome(answer: Option<Seq<char>>) -> OutcomeView {
    match answer {
        Some(directory) => says(directory + seq!['\n']),
        None => complains("pwd: cannot tell the working directory\n"@),
    }
}

/// What a program that is to be found does: where it was found, it is
/// started under its bare file name.
pub open spec fn binary_outcome(
    path: Seq<char>,
    args: Seq<Seq<char>>,
    answer: Option<Seq<char>>,
) -> OutcomeView {
    match answer {
        Some(program) => does(ActionView::Spawn { program, name: file_name(program), args }),
        None => complains(path + ": command not found\n"@),
    }
}

/// What `exit` does: it asks to leave with the code given, or with 0, and
/// hands out the text of the history file, which holds every line of the
/// store.
pub open spec fn exit_outcome(code: Option<i32>, entries: Seq<Seq<char>>) -> OutcomeView {
    does(
        ActionView::Exit {
            code: match code {
                Some(code) => code,
                None => 0,
            },
            history: unlines(entries),
        },
    )
}

/// How many lines `history` lists when asked for `n` of `len`.
pub open spec fn listed(n: nat, len: nat) -> nat {
    if n < len {
        n
    } else {
        len
    }
}

/// What `history` does on a store that holds `entries`, of which the
/// first `flushed` were handed out for appending before.
pub open spec fn history_outcome(
    argument: HistoryArgView,
    entries: Seq<Seq<char>>,
    flushed: int,
) -> OutcomeView {
    let len = entries.len() as int;
    match argument {
        HistoryArgView::All => says(listing(entries, 0, len)),
        HistoryArgView::Amount(n) => says(listing(entries, len - listed(n, entries.len()), len)),
        HistoryArgView::Read(path) => does(ActionView::ReadHistory(path)),
        HistoryArgView::Write(path) => does(
            ActionView::WriteHistory { path, text: unlines(entries) },
        ),
        HistoryArgView::Append(path) => does(
            ActionView::AppendHistory { path, text: unlines(entries.subrange(flushed, len)) },
        ),
    }
}

/// What a command needs from outside.
pub open spec fn need_spec(command: CommandView) -> NeedView {
    match command {
        CommandView::Cd { target } => cd_need(target),
        CommandView::Pwd => NeedView::WorkingDirectory,
        CommandView::Type { command } => if is_builtin_name(command) {
            NeedView::Nothing
        } else {
            NeedView::Lookup(command)
        },
        CommandView::Binary { path, args } => NeedView::Lookup(path),
        _ => NeedView::Nothing,
    }
}

/// What a command does, given the answer to what it needed.
pub open spec fn outcome_spec(
    command: CommandView,
    answer: Option<Seq<char>>,
    entries: Seq<Seq<char>>,
    flushed: int,
) -> OutcomeView {
    match command {
        CommandView::Cd { target } => cd_outcome(target, answer),
        CommandView::Pwd => pwd_outcome(answer),
        CommandView::Type { command } => type_outcome(command, answer),
        CommandView::Echo { args } => echo_outcome(args),
        CommandView::Exit { code } => exit_outcome(code, entries),
        CommandView::History { argument } => history_outcome(argument, entries, flushed),
        CommandView::Binary { path, args } => binary_outcome(path, args, answer),
    }
}

fn say(text: String) -> (o: Outcome)
    ensures
        o@ == says(text@),
{
    Outcome { stdout: text, stderr: String::new(), action: Action::Nothing }
}

fn complain(text: String) -> (o: Outcome)
    ensures
        o@ == complains(text@),
{
    Outcome { stdout: String::new(), stderr: text, action: Action::Nothing }
}

fn act(action: Action) -> (o: Outcome)
    ensures
        o@ == does(action@),
{
    Outcome { stdout: String::new(), stderr: String::new(), action }
}

/// The last component of `path`: what follows its last `/`.
pub fn bare_name(path: &str) -> (name: String)
    ensures
        name@ == file_name(path@),
{
    let chars = chars_of(path);
    let mut i: usize = chars.len();
    assert(chars@.take(i as int) =~= chars@);
    while i > 0 && chars[i - 1] != '/'
        invariant
            i <= chars.len(),
            name_start(chars@.take(i as int)) == name_start(chars@),
        decreases i,
    {
        assert(chars@.take(i as int).drop_last() =~= chars@.take(i - 1));
        i -= 1;
    }
    proof {
        let front = chars@.take(i as int);
        if i > 0 {
            assert(front.last() == '/');
        }
        assert(name_start(front) == i);
    }
    string_of(&chars, i, chars.len())
}

impl Cd {
    /// What `cd` needs from outside.
    pub fn needs(&self) -> (n: Need)
        ensures
            n@ == cd_need(text_of(self.target_directory)),
    {
        match &self.target_directory {
            Some(path) => if same(path.as_str(), "~") {
                Need::Home
            } else {
                Need::Resolve(path.clone())
            },
            None => Need::Home,
        }
    }

    /// Runs `cd`, given the directory that was found for its target, or
    /// nothing where there is no such directory.
    pub fn execute(&self, answer: Option<String>) -> (o: Outcome)
        ensures
            o@ == cd_outcome(text_of(self.target_directory), text_of(answer)),
    {
        match answer {
            Some(directory) => act(Action::ChangeDirectory(directory)),
            None => {
                let mut text = "cd: ".to_owned();
                match &self.target_directory {
                    Some(path) => text.push_str(path.as_str()),
                    None => text.push_str("~"),
                }
                text.push_str(": No such file or directory\n");
                complain(text)
            },
        }
    }
}

impl Type {
    /// Runs `type`, given the file that the search path gave for its
    /// command name, or nothing where it gave none.
    pub fn execute(&self, answer: Option<String>) -> (o: Outcome)
        ensures
            o@ == type_outcome(self.command@, text_of(answer)),
    {
        let mut text = self.command.clone();
        if is_builtin(self.command.as_str()) {
            text.push_str(" is a shell builtin\n");
            return say(text);
        }
        match answer {
            Some(file) => {
                text.push_str(" is ");
                text.push_str(file.as_str());
                text.push('\n');
                assert(text@ =~= self.command@ + " is "@ + file@ + seq!['\n']);
                say(text)
            },
            None => {
                text.push_str(": not found\n");
                complain(text)
            },
        }
    }
}

impl Echo {
    /// Runs `echo`: the arguments, with a space between each two, and a
    /// line feed.
    pub fn execute(&self) -> (o: Outcome)
        ensures
            o@ == echo_outcome(self.args.deep_view()),
    {
        let mut text = join(&self.args, " ");
        text.push('\n');
        assert(text@ =~= joined(self.args.deep_view(), " "@) + seq!['\n']);
        say(text)
    }
}

impl Pwd {
    /// Runs `pwd`, given the working directory.
    pub fn execute(&self, answer: Option<String>) -> (o: Outcome)
        ensures
            o@ == pwd_outcome(text_of(answer)),
    {
        match answer {
            Some(directory) => {
                let mut text = directory;
                text.push('\n');
                assert(text@ =~= directory@ + seq!['\n']);
                say(text)
            },
            None => complain("pwd: cannot tell the working directory\n".to_owned()),
        }
    }
}

impl Exit {
    /// Runs `exit` on the store: asks to leave with the code given, or
    /// with 0, once the history has been written.
    pub fn execute(&self, history: &crate::history::History) -> (o: Outcome)
        ensures
            o@ == exit_outcome(self.code, history.entries()),
    {
        let code = match self.code {
            Some(code) => code,
            None => 0,
        };
        act(Action::Exit { code, history: history.file_text() })
    }
}

impl Binary {
    /// Runs a program, given the file that the search path gave for it, or
    /// nothing where it gave none.
    pub fn execute(&self, answer: Option<String>) -> (o: Outcome)
        ensures
            o@ == binary_outcome(self.path@, self.args.deep_view(), text_of(answer)),
    {
        match answer {
            Some(program) => {
                let name = bare_name(program.as_str());
                act(Action::Spawn { program, name, args: self.args.clone() })
            },
            None => {
                let mut text = self.path.clone();
                text.push_str(": command not found\n");
                complain(text)
            },
        }
    }
}

/// The numbered lines `from..` of the store.
fn list(history: &crate::history::History, from: usize) -> (text: String)
    requires
        from <= history.entries().len(),
    ensures
        text@ == listing(history.entries(), from as int, history.entries().len() as int),
{
    let mut text = String::new();
    let mut i: usize = from;
    let n = history.len();
    while i < n
        invariant
            from <= i <= n == history.entries().len(),
            text@ == listing(history.entries(), from as int, i as int),
        decreases n - i,
    {
        let ghost before = text@;
        text.push_str("  ");
        push_decimal(&mut text, i + 1);
        text.push_str(" ");
        match history.get(i) {
            Some(line) => {
                text.push_str(line.as_str());
            },
            None => {},
        }
        text.push('\n');
        assert(text@ =~= before + "  "@ + decimal((i + 1) as nat) + " "@ + history.entries()[i as int]
            + seq!['\n']);
        i += 1;
    }
    text
}

impl History {
    /// Runs `history` on the store.
    pub fn execute(&self, history: &mut crate::history::History) -> (o: Outcome)
        requires
            old(history).wf(),
        ensures
            final(history).wf(),
            final(history).entries() == old(history).entries(),
            final(history).cursor() == old(history).cursor(),
            final(history).flushed() == if self.argument is Append {
                old(history).entries().len() as int
            } else {
                old(history).flushed()
            },
            o@ == history_outcome(self.argument@, old(history).entries(), old(history).flushed()),
    {
        match &self.argument {
            HistoryArg::All => say(list(history, 0)),
            HistoryArg::Amount(n) => {
                let len = history.len();
                let shown = if *n < len {
                    *n
                } else {
                    len
                };
                say(list(history, len - shown))
            },
            HistoryArg::Read(path) => act(Action::ReadHistory(path.clone())),
            HistoryArg::Write(path) => act(
                Action::WriteHistory { path: path.clone(), text: history.file_text() },
            ),
            HistoryArg::Append(path) => act(
                Action::AppendHistory { path: path.clone(), text: history.pending_text() },
            ),
        }
    }
}

impl Command {
    /// What the command needs from outside before it can run.
    pub fn needs(&self) -> (n: Need)
        ensures
            n@ == need_spec(self@),
    {
        match self {
            Command::Cd(cd) => cd.needs(),
            Command::Pwd(_) => Need::WorkingDirectory,
            Command::Type(t) => if is_builtin(t.command.as_str()) {
                Need::Nothing
            } else {
                Need::Lookup(t.command.clone())
            },
            Command::Binary(b) => Need::Lookup(b.path.clone()),
            _ => Need::Nothing,
        }
    }

    /// Runs the command, given the answer to what it needed, on the
    /// history store of the interpreter.
    pub fn execute(&self, answer: Option<String>, history: &mut crate::history::History) -> (o:
        Outcome)
        requires
            old(history).wf(),
        ensures
            final(history).wf(),
            final(history).entries() == old(history).entries(),
            final(history).cursor() == old(history).cursor(),
            final(history).flushed() == if self@ matches CommandView::History {
                argument: HistoryArgView::Append(_),
            } {
                old(history).entries().len() as int
            } else {
                old(history).flushed()
            },
            o@ == outcome_spec(
                self@,
                text_of(answer),
                old(history).entries(),
                old(history).flushed(),
            ),
    {
        match self {
            Command::Cd(cd) => cd.execute(answer),
            Command::Pwd(pwd) => pwd.execute(answer),
            Command::Type(t) => t.execute(answer),
            Command::Echo(echo) => echo.execute(),
            Command::Exit(exit) => exit.execute(history),
            Command::Binary(binary) => binary.execute(answer),
            Command::History(h) => h.execute(history),
        }
    }
}

/// What is known of a file: its name or path, whether it is a regular
/// file, and its permission bits.
#[derive(Debug, PartialEq, Eq)]
pub struct FileInfo {
    pub name: String,
    pub is_file: bool,
    pub mode: u32,
}

/// Whether a file can be run: it is a regular file and one of its three
/// execute bits is set.
pub open spec fn runnable(is_file: bool, mode: u32) -> bool {
    is_file && mode & 0o111 != 0
}

impl FileInfo {
    /// Whether the file can be run.
    pub fn is_executable(&self) -> (r: bool)
        ensures
            r == runnable(self.is_file, self.mode),
    {
        self.is_file && self.mode & 0o111 != 0
    }
}

#[via_fn]
proof fn fields_from_terminates(s: Seq<char>, i: int) {
    if 0 <= i <= s.len() {
        lemma_index_of_bounds(s, i, ':');
    }
}

/// The pieces of `s` from position `i` on that colons separate. Between
/// two colons, before the first and after the last stands a piece, which
/// may be empty.
pub open spec fn fields_from(s: Seq<char>, i: int) -> Seq<Seq<char>>
    decreases s.len() - i,
    via fields_from_terminates
{
    if i < 0 || i > s.len() {
        Seq::empty()
    } else {
        let end = index_of(s, i, ':');
        if end >= s.len() {
            seq![s.subrange(i, s.len() as int)]
        } else {
            seq![s.subrange(i, end)] + fields_from(s, end + 1)
        }
    }
}

/// The directories that a search path names, in its order.
pub open spec fn path_directories(path: Seq<char>) -> Seq<Seq<char>> {
    fields_from(path, 0)
}

/// The path of the file `name` in the directory `dir`. A name that starts
/// at the root stands for itself.
pub open spec fn join_path(dir: Seq<char>, name: Seq<char>) -> Seq<char> {
    if name.len() > 0 && name[0] == '/' {
        name
    } else if dir.len() == 0 || dir.last() == '/' {
        dir + name
    } else {
        dir + seq!['/'] + name
    }
}

/// The files that a search path offers for a command name, in the order
/// of the path.
pub open spec fn candidate_paths_spec(name: Seq<char>, path: Seq<char>) -> Seq<Seq<char>> {
    path_directories(path).map_values(|dir: Seq<char>| join_path(dir, name))
}

/// The directories that a search path names, in its order.
pub fn split_paths(path: &str) -> (dirs: Vec<String>)
    ensures
        dirs.deep_view() == path_directories(path@),
{
    let chars = chars_of(path);
    let n = chars.len();
    let mut dirs: Vec<String> = Vec::new();
    let mut start: usize = 0;
    assert(dirs.deep_view() + fields_from(chars@, 0) =~= path_directories(chars@));
    loop
        invariant_except_break
            dirs.deep_view() + fields_from(chars@, start as int) == path_directories(chars@),
        invariant
            n == chars.len(),
            start <= n,
            chars@ == path@,
        ensures
            dirs.deep_view() == path_directories(chars@),
            chars@ == path@,
        decreases n - start,
    {
        let mut end = start;
        while end < n && chars[end] != ':'
            invariant
                n == chars.len(),
                start <= end <= n,
                forall|k: int| start <= k < end ==> chars@[k] != ':',
            decreases n - end,
        {
            end += 1;
        }
        proof {
            lemma_index_of_skip(chars@, start as int, end as int, ':');
        }
        let ghost before = dirs.deep_view();
        let dir = string_of(&chars, start, end);
        dirs.push(dir);
        assert(dirs.deep_view() =~= before.push(dir@));
        if end == n {
            assert(before.push(dir@) =~= before + fields_from(chars@, start as int));
            break ;
        }
        assert(before.push(dir@) + fields_from(chars@, end + 1) =~= before + fields_from(
            chars@,
            start as int,
        ));
        start = end + 1;
    }
    dirs
}

/// The path of the file `name` in the directory `dir`.
fn join_to(dir: &str, name: &str) -> (file: String)
    ensures
        file@ == join_path(dir@, name@),
{
    let n = chars_of(name);
    if n.len() > 0 && n[0] == '/' {
        return name.to_owned();
    }
    let d = chars_of(dir);
    let mut file = dir.to_owned();
    if d.len() > 0 && d[d.len() - 1] != '/' {
        file.push('/');
    }
    file.push_str(name);
    file
}

/// The files that the search path `path` offers for `command_name`, in the
/// order of the path.
pub fn candidate_paths(command_name: &str, path: &str) -> (files: Vec<String>)
    ensures
        files.deep_view() == candidate_paths_spec(command_name@, path@),
{
    let dirs = split_paths(path);
    let mut files: Vec<String> = Vec::new();
    let mut i: usize = 0;
    while i < dirs.len()
        invariant
            i <= dirs.len(),
            files.len() == i,
            forall|k: int|
                0 <= k < i ==> #[trigger] files[k]@ == join_path(dirs[k]@, command_name@),
        decreases dirs.len() - i,
    {
        files.push(join_to(dirs[i].as_str(), command_name));
        i += 1;
    }
    assert(files.deep_view() =~= candidate_paths_spec(command_name@, path@));
    files
}

/// The first of `files` that can be run, if there is one.
pub fn find_path(files: &Vec<FileInfo>) -> (found: Option<String>)
    ensures
        match found {
            Some(name) => exists|i: int|
                0 <= i < files.len() && #[trigger] files[i].name@ == name@ && runnable(
                    files[i].is_file,
                    files[i].mode,
                ) && forall|k: int|
                    0 <= k < i ==> !runnable(#[trigger] files[k].is_file, files[k].mode),
            None => forall|k: int|
                0 <= k < files.len() ==> !runnable(#[trigger] files[k].is_file, files[k].mode),
        },
{
    let mut i: usize = 0;
    while i < files.len()
        invariant
            i <= files.len(),
            forall|k: int| 0 <= k < i ==> !runnable(#[trigger] files[k].is_file, files[k].mode),
        decreases files.len() - i,
    {
        if files[i].is_executable() {
            let name = files[i].name.clone();
            assert(files[i as int].name@ == name@);
            return Some(name);
        }
        i += 1;
    }
    None
}

/// Whether one of the first `n` of `files` can be run and has the name
/// `word`.
pub open spec fn offered(files: Seq<FileInfo>, n: int, word: Seq<char>) -> bool {
    exists|k: int|
        0 <= k < n && k < files.len() && #[trigger] files[k].name@ == word && runnable(
            files[k].is_file,
            files[k].mode,
        )
}

/// One more file offers one more name, where it can be run.
pub proof fn lemma_offered_step(files: Seq<FileInfo>, n: int, word: Seq<char>)
    requires
        0 <= n < files.len(),
    ensures
        offered(files, n + 1, word) <==> offered(files, n, word) || (files[n].name@ == word
            && runnable(files[n].is_file, files[n].mode)),
{
    if offered(files, n + 1, word) {
        let k = choose|k: int|
            0 <= k < n + 1 && k < files.len() && #[trigger] files[k].name@ == word && runnable(
                files[k].is_file,
                files[k].mode,
            );
        if k < n {
            assert(files[k].name@ == word);
            assert(offered(files, n, word));
        }
    }
    if offered(files, n, word) {
        let k = choose|k: int|
            0 <= k < n && k < files.len() && #[trigger] files[k].name@ == word && runnable(
                files[k].is_file,
                files[k].mode,
            );
        assert(files[k].name@ == word);
        assert(offered(files, n + 1, word));
    }
    if files[n].name@ == word && runnable(files[n].is_file, files[n].mode) {
        assert(offered(files, n + 1, word));
    }
}

/// The names of the commands that can be run: those that the interpreter
/// runs itself, and those of `files` that can be run. Each name stands
/// once, and the names are in the order of the dictionary.
pub fn get_commands(files: &Vec<FileInfo>) -> (names: Vec<String>)
    ensures
        sorted(names.deep_view()),
        forall|w: Seq<char>|
            #[trigger] names.deep_view().contains(w) <==> is_builtin_name(w) || offered(
                files@,
                files.len() as int,
                w,
            ),
{
    let mut names: Vec<String> = Vec::new();
    assert(names.deep_view() =~= Seq::<Seq<char>>::empty());
    insert_sorted(&mut names, "echo".to_owned());
    insert_sorted(&mut names, "cd".to_owned());
    insert_sorted(&mut names, "pwd".to_owned());
    insert_sorted(&mut names, "type".to_owned());
    insert_sorted(&mut names, "exit".to_owned());
    insert_sorted(&mut names, "history".to_owned());
    let mut i: usize = 0;
    while i < files.len()
        invariant
            i <= files.len(),
            sorted(names.deep_view()),
            forall|w: Seq<char>|
                #[trigger] names.deep_view().contains(w) <==> is_builtin_name(w) || offered(
                    files@,
                    i as int,
                    w,
                ),
        decreases files.len() - i,
    {
        let ghost before = names.deep_view();
        if files[i].is_executable() {
            insert_sorted(&mut names, files[i].name.clone());
        }
        proof {
            let after = names.deep_view();
            assert forall|w: Seq<char>|
                #[trigger] after.contains(w) <==> is_builtin_name(w) || offered(
                    files@,
                    i + 1,
                    w,
                ) by {
                lemma_offered_step(files@, i as int, w);
                assert(before.contains(w) <==> is_builtin_name(w) || offered(files@, i as int, w));
            }
        }
        i += 1;
    }
    names
}

} // verus!
