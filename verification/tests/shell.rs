use minishell::commands::{Binary, Command};
use minishell::eval::{Endpoint, Step};
use minishell::shell::{interpret, Effect, Key, Shell};

fn s(text: &str) -> String {
    text.to_string()
}

fn list(words: &[&str]) -> Vec<String> {
    words.iter().map(|w| w.to_string()).collect()
}

fn show(text: &str) -> Effect {
    Effect::Display(s(text))
}

fn type_text(shell: &mut Shell, text: &str) {
    for c in text.chars() {
        shell.handle_key(Key::Char(c), &vec![]);
    }
}

const BELL: &str = "\x07";

#[test]
fn completion_extends_to_the_common_prefix_without_bell() {
    let names = list(&["list", "listen", "ls"]);
    let mut shell = Shell::new();
    type_text(&mut shell, "li");
    let out = shell.handle_key(Key::Char('\t'), &names);
    assert_eq!(shell.buffer(), "list");
    assert_eq!(out, vec![show("\x1b[2D\x1b[Jlist")]);
}

#[test]
fn ambiguous_completion_rings_once_then_lists() {
    let found = list(&["list", "listen"]);
    let mut shell = Shell::new();
    type_text(&mut shell, "list");
    let out = shell.multiple_completions(&found);
    assert_eq!(out, vec![show(BELL)]);
    assert_eq!(shell.buffer(), "list");
    let out = shell.multiple_completions(&found);
    assert_eq!(
        out,
        vec![
            show("\n\x1b[6D"),
            Effect::RawMode(false),
            Effect::Print(s("list  listen")),
            Effect::RawMode(true),
            show("$ "),
        ]
    );
    assert_eq!(shell.buffer(), "");
    let out = shell.multiple_completions(&found);
    assert_eq!(out, vec![show("\x1b[0D\x1b[Jlist")]);
}

#[test]
fn tab_with_several_candidates_and_no_progress() {
    let names = list(&["listed", "listen", "ls"]);
    let mut shell = Shell::new();
    type_text(&mut shell, "liste");
    assert_eq!(shell.handle_key(Key::Char('\t'), &names), vec![show(BELL)]);
    assert_eq!(shell.buffer(), "liste");
    assert_eq!(
        shell.handle_key(Key::Char('\t'), &names),
        vec![
            show("\n\x1b[7D"),
            Effect::RawMode(false),
            Effect::Print(s("listed  listen")),
            Effect::RawMode(true),
            show("$ "),
        ]
    );
    assert_eq!(shell.buffer(), "");
}

#[test]
fn candidates_are_listed_sorted_and_once() {
    let names = list(&["ls", "la", "cd", "ls", "lz", "la"]);
    let mut shell = Shell::new();
    type_text(&mut shell, "l");
    assert_eq!(shell.handle_key(Key::Char('\t'), &names), vec![show(BELL)]);
    assert_eq!(
        shell.handle_key(Key::Char('\t'), &names),
        vec![
            show("\n\x1b[3D"),
            Effect::RawMode(false),
            Effect::Print(s("la  ls  lz")),
            Effect::RawMode(true),
            show("$ "),
        ]
    );
    let mut shell = Shell::new();
    type_text(&mut shell, "l");
    shell.multiple_completions(&list(&["ls", "la"]));
    let out = shell.multiple_completions(&list(&["ls", "la"]));
    assert_eq!(out[2], Effect::Print(s("la  ls")));
}

#[test]
fn repeated_name_counts_as_one_candidate() {
    let mut shell = Shell::new();
    type_text(&mut shell, "ec");
    let out = shell.handle_key(Key::Char('\t'), &list(&["echo", "cd", "echo"]));
    assert_eq!(out, vec![show("\x1b[2D\x1b[Jecho ")]);
    assert_eq!(shell.buffer(), "echo ");
}

#[test]
fn tab_with_no_candidate_rings_the_bell() {
    let mut shell = Shell::new();
    type_text(&mut shell, "zz");
    assert_eq!(shell.handle_key(Key::Char('\t'), &list(&["ls"])), vec![show(BELL)]);
    assert_eq!(shell.buffer(), "zz");
}

#[test]
fn tab_with_one_candidate_completes_and_adds_a_space() {
    let mut shell = Shell::new();
    type_text(&mut shell, "ec");
    let out = shell.handle_key(Key::Char('\t'), &list(&["cd", "echo", "exit"]));
    assert_eq!(out, vec![show("\x1b[2D\x1b[Jecho ")]);
    assert_eq!(shell.buffer(), "echo ");
}

#[test]
fn tab_on_a_complete_name_takes_the_longer_one() {
    let mut shell = Shell::new();
    type_text(&mut shell, "list");
    let out = shell.handle_key(Key::Char('\t'), &list(&["list", "listen", "ls"]));
    assert_eq!(out, vec![show("\x1b[4D\x1b[Jlisten ")]);
    assert_eq!(shell.buffer(), "listen ");
}

#[test]
fn printable_character_is_echoed_and_kept() {
    let mut shell = Shell::new();
    assert_eq!(shell.handle_key(Key::Char('a'), &vec![]), vec![show("a")]);
    assert_eq!(shell.handle_key(Key::Char('é'), &vec![]), vec![show("é")]);
    assert_eq!(shell.buffer(), "aé");
}

#[test]
fn backspace_drops_the_last_character() {
    let mut shell = Shell::new();
    type_text(&mut shell, "ab");
    assert_eq!(shell.handle_key(Key::Backspace, &vec![]), vec![show("\x1b[1D\x1b[J")]);
    assert_eq!(shell.buffer(), "a");
    shell.handle_key(Key::Backspace, &vec![]);
    assert_eq!(shell.buffer(), "");
    assert_eq!(shell.handle_key(Key::Backspace, &vec![]), vec![]);
    assert_eq!(shell.buffer(), "");
}

#[test]
fn interrupt_leaves_the_program() {
    let mut shell = Shell::new();
    type_text(&mut shell, "ab");
    assert_eq!(shell.handle_key(Key::Ctrl('c'), &vec![]), vec![Effect::Exit(0)]);
    assert_eq!(shell.handle_key(Key::Ctrl('d'), &vec![]), vec![]);
    assert_eq!(shell.handle_key(Key::Other, &vec![]), vec![]);
    assert_eq!(shell.buffer(), "ab");
}

#[test]
fn enter_runs_the_line_and_starts_a_new_prompt() {
    let mut shell = Shell::new();
    type_text(&mut shell, "ls");
    let out = shell.handle_key(Key::Char('\n'), &vec![]);
    assert_eq!(
        out,
        vec![
            show("\n\x1b[4D"),
            Effect::RawMode(false),
            Effect::Execute(vec![
                Step::Run {
                    name: s("ls"),
                    command: Ok(Command::Binary(Binary { path: s("ls"), args: vec![] })),
                    stdin: Endpoint::Inherit,
                    stdout: Endpoint::Inherit,
                    stderr: Endpoint::Inherit,
                },
                Step::Wait(0),
            ]),
            Effect::RawMode(true),
            show("$ "),
        ]
    );
    assert_eq!(shell.buffer(), "");
    assert_eq!(shell.history().len(), 1);
    assert_eq!(shell.history().get(0), Some(&s("ls")));
}

#[test]
fn enter_reports_a_parse_error_and_goes_on() {
    let mut shell = Shell::new();
    type_text(&mut shell, "echo hi >");
    let out = shell.handle_key(Key::Char('\n'), &vec![]);
    assert_eq!(
        out,
        vec![
            show("\n\x1b[11D"),
            Effect::RawMode(false),
            Effect::Report(s("syntax error: expected a destination after redirect")),
            Effect::RawMode(true),
            show("$ "),
        ]
    );
    assert_eq!(shell.buffer(), "");
    assert_eq!(shell.history().len(), 1);
    assert_eq!(shell.handle_key(Key::Char('x'), &vec![]), vec![show("x")]);
}

#[test]
fn arrows_walk_through_the_history() {
    let mut shell = Shell::new();
    shell.history().add(s("ls"));
    shell.history().add(s("pwd"));
    assert_eq!(shell.handle_key(Key::Up, &vec![]), vec![show("pwd")]);
    assert_eq!(shell.buffer(), "pwd");
    assert_eq!(shell.handle_key(Key::Up, &vec![]), vec![show("\x1b[3D\x1b[Jls")]);
    assert_eq!(shell.buffer(), "ls");
    assert_eq!(shell.handle_key(Key::Up, &vec![]), vec![show("\x1b[2D\x1b[Jls")]);
    assert_eq!(shell.handle_key(Key::Down, &vec![]), vec![show("\x1b[2D\x1b[Jpwd")]);
    assert_eq!(shell.handle_key(Key::Down, &vec![]), vec![show("\x1b[3D\x1b[Jpwd")]);
    assert_eq!(shell.buffer(), "pwd");
}

#[test]
fn arrows_do_nothing_without_history() {
    let mut shell = Shell::new();
    type_text(&mut shell, "x");
    assert_eq!(shell.handle_key(Key::Up, &vec![]), vec![]);
    assert_eq!(shell.handle_key(Key::Down, &vec![]), vec![]);
    assert_eq!(shell.buffer(), "x");
    shell.history().add(s("ls"));
    assert_eq!(shell.handle_key(Key::Down, &vec![]), vec![]);
    assert_eq!(shell.buffer(), "x");
}

#[test]
fn cursor_moves_count_bytes() {
    let mut shell = Shell::new();
    shell.history().add(s("ls"));
    type_text(&mut shell, "é");
    assert_eq!(shell.handle_key(Key::Up, &vec![]), vec![show("\x1b[2D\x1b[Jls")]);
}

#[test]
fn prompt_shows_the_line() {
    let mut shell = Shell::new();
    assert_eq!(shell.prompt(), vec![show("$ ")]);
    type_text(&mut shell, "ab");
    assert_eq!(shell.prompt(), vec![show("$ ab")]);
}

#[test]
fn long_line_moves_the_cursor_by_at_most_65535_cells() {
    let mut shell = Shell::new();
    shell.history().add("x".repeat(70000));
    shell.history().add(s("ls"));
    shell.handle_key(Key::Up, &vec![]);
    shell.handle_key(Key::Up, &vec![]);
    assert_eq!(shell.buffer().len(), 70000);
    assert_eq!(shell.handle_key(Key::Down, &vec![]), vec![show("\x1b[65535D\x1b[Jls")]);
}

#[test]
fn interpret_plans_or_reports() {
    assert_eq!(
        interpret("echo 'a"),
        Effect::Report(s("syntax error: unterminated quote"))
    );
    assert_eq!(
        interpret("echo a\\"),
        Effect::Report(s("syntax error: expected a character after backslash"))
    );
    assert_eq!(interpret(""), Effect::Report(s("syntax error: expected a command name")));
    assert_eq!(interpret("a &"), Effect::Report(s("syntax error: unsupported operator")));
    assert_eq!(interpret("a > f b"), Effect::Report(s("syntax error: unexpected word")));
    assert_eq!(
        interpret("a | b"),
        Effect::Execute(vec![
            Step::Pipe,
            Step::Run {
                name: s("a"),
                command: Ok(Command::Binary(Binary { path: s("a"), args: vec![] })),
                stdin: Endpoint::Inherit,
                stdout: Endpoint::PipeWrite(0),
                stderr: Endpoint::Inherit,
            },
            Step::Run {
                name: s("b"),
                command: Ok(Command::Binary(Binary { path: s("b"), args: vec![] })),
                stdin: Endpoint::PipeRead(0),
                stdout: Endpoint::Inherit,
                stderr: Endpoint::Inherit,
            },
            Step::Wait(2),
            Step::Wait(1),
        ])
    );
}
