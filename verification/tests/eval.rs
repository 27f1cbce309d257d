use minishell::commands::{Binary, Cd, Command, Echo, UsageError};
use minishell::eval::{after_step, plan, Endpoint, ExecError, Next, Step};
use minishell::parser::{Expr, Parser, Stream};
use minishell::tokenizer::Tokenizer;

fn s(text: &str) -> String {
    text.to_string()
}

fn list(words: &[&str]) -> Vec<String> {
    words.iter().map(|w| w.to_string()).collect()
}

fn parse_line(line: &str) -> Expr {
    let mut parser = Parser::new(Tokenizer::tokenize(line).unwrap());
    parser.parse().unwrap();
    parser.ast().unwrap()
}

fn run(name: &str, args: &[&str], stdin: Endpoint, stdout: Endpoint, stderr: Endpoint) -> Step {
    Step::Run {
        name: s(name),
        command: Ok(Command::Binary(Binary { path: s(name), args: list(args) })),
        stdin,
        stdout,
        stderr,
    }
}

fn echo(args: &[&str], stdout: Endpoint, stderr: Endpoint) -> Step {
    Step::Run {
        name: s("echo"),
        command: Ok(Command::Echo(Echo { args: list(args) })),
        stdin: I,
        stdout,
        stderr,
    }
}

fn open(path: &str, append: bool) -> Step {
    Step::Open { path: s(path), append }
}

const I: Endpoint = Endpoint::Inherit;

#[test]
fn plain_command_creates_no_pipe_and_runs_once() {
    let steps = plan(&parse_line("ls -l /tmp")).unwrap();
    assert_eq!(steps, vec![run("ls", &["-l", "/tmp"], I, I, I), Step::Wait(0)]);
}

#[test]
fn pipe_binds_both_ends_once() {
    let steps = plan(&parse_line("printf 'a\\nb\\nc\\n' | head -n 2")).unwrap();
    assert_eq!(
        steps,
        vec![
            Step::Pipe,
            run("printf", &["a\\nb\\nc\\n"], I, Endpoint::PipeWrite(0), I),
            run("head", &["-n", "2"], Endpoint::PipeRead(0), I, I),
            Step::Wait(2),
            Step::Wait(1),
        ]
    );
}

#[test]
fn three_stage_pipeline() {
    let steps = plan(&parse_line("cat f.txt | head -n 2 | wc -l")).unwrap();
    assert_eq!(
        steps,
        vec![
            Step::Pipe,
            Step::Pipe,
            run("cat", &["f.txt"], I, Endpoint::PipeWrite(1), I),
            run("head", &["-n", "2"], Endpoint::PipeRead(1), Endpoint::PipeWrite(0), I),
            run("wc", &["-l"], Endpoint::PipeRead(0), I, I),
            Step::Wait(4),
            Step::Wait(3),
            Step::Wait(2),
        ]
    );
}

#[test]
fn redirect_opens_the_file_before_the_command() {
    let steps = plan(&parse_line("echo hi > out.txt")).unwrap();
    assert_eq!(
        steps,
        vec![open("out.txt", false), echo(&["hi"], Endpoint::File(0), I), Step::Wait(1)]
    );
    let steps = plan(&parse_line("echo hi 2> err.txt")).unwrap();
    assert_eq!(
        steps,
        vec![open("err.txt", false), echo(&["hi"], I, Endpoint::File(0)), Step::Wait(1)]
    );
}

#[test]
fn append_opens_for_append() {
    let steps = plan(&parse_line("echo hi >> out.txt")).unwrap();
    assert_eq!(
        steps,
        vec![open("out.txt", true), echo(&["hi"], Endpoint::File(0), I), Step::Wait(1)]
    );
    let steps = plan(&parse_line("echo hi 2>> err.txt")).unwrap();
    assert_eq!(
        steps,
        vec![open("err.txt", true), echo(&["hi"], I, Endpoint::File(0)), Step::Wait(1)]
    );
}

#[test]
fn replaced_file_is_closed() {
    let steps = plan(&parse_line("a > f > g")).unwrap();
    assert_eq!(
        steps,
        vec![
            open("g", false),
            open("f", false),
            run("a", &[], I, Endpoint::File(1), I),
            Step::Close(Endpoint::File(0)),
            Step::Wait(2),
        ]
    );
}

#[test]
fn unused_pipe_end_is_closed() {
    let steps = plan(&parse_line("a > f | b")).unwrap();
    assert_eq!(
        steps,
        vec![
            Step::Pipe,
            open("f", false),
            run("a", &[], I, Endpoint::File(1), I),
            Step::Close(Endpoint::PipeWrite(0)),
            run("b", &[], Endpoint::PipeRead(0), I, I),
            Step::Wait(4),
            Step::Wait(2),
        ]
    );
}

#[test]
fn redirect_after_pipe_reaches_the_right_side() {
    let steps = plan(&parse_line("a | b > f")).unwrap();
    assert_eq!(
        steps,
        vec![
            open("f", false),
            Step::Pipe,
            run("a", &[], I, Endpoint::PipeWrite(1), I),
            run("b", &[], Endpoint::PipeRead(1), Endpoint::File(0), I),
            Step::Wait(3),
            Step::Wait(2),
        ]
    );
}

#[test]
fn stderr_redirect_after_pipe_reaches_the_left_side() {
    let steps = plan(&parse_line("a | b 2> f")).unwrap();
    assert_eq!(
        steps,
        vec![
            open("f", false),
            Step::Pipe,
            run("a", &[], I, Endpoint::PipeWrite(1), Endpoint::File(0)),
            run("b", &[], Endpoint::PipeRead(1), I, I),
            Step::Wait(3),
            Step::Wait(2),
        ]
    );
}

#[test]
fn commands_of_the_interpreter_are_recognised_in_the_plan() {
    let steps = plan(&parse_line("cd /tmp | type")).unwrap();
    assert_eq!(
        steps,
        vec![
            Step::Pipe,
            Step::Run {
                name: s("cd"),
                command: Ok(Command::Cd(Cd { target_directory: Some(s("/tmp")) })),
                stdin: I,
                stdout: Endpoint::PipeWrite(0),
                stderr: I,
            },
            Step::Run {
                name: s("type"),
                command: Err(UsageError::MissingArgument),
                stdin: Endpoint::PipeRead(0),
                stdout: I,
                stderr: I,
            },
            Step::Wait(2),
            Step::Wait(1),
        ]
    );
}

#[test]
fn stdin_redirect_is_refused() {
    let expr = Expr::Redirect {
        src: Box::new(Expr::Command { name: s("a"), args: vec![] }),
        stream: Stream::Stdin,
        dest: s("f"),
    };
    assert!(!expr.is_supported());
    assert_eq!(plan(&expr), Err(ExecError::StdinRedirect));
    let nested = Expr::Pipe {
        src: Box::new(Expr::Command { name: s("a"), args: vec![] }),
        dest: Box::new(expr),
    };
    assert_eq!(plan(&nested), Err(ExecError::StdinRedirect));
    assert_eq!(
        ExecError::StdinRedirect.message(),
        "error: redirection of standard input is not supported"
    );
}

#[test]
fn execute_adds_to_an_existing_plan() {
    let expr = parse_line("a | b");
    assert!(expr.is_supported());
    let mut steps = vec![open("log", true)];
    let handle = expr.execute(I, Endpoint::File(0), I, &mut steps);
    assert_eq!(handle, vec![3, 2]);
    assert_eq!(
        steps,
        vec![
            open("log", true),
            Step::Pipe,
            run("a", &[], I, Endpoint::PipeWrite(1), I),
            run("b", &[], Endpoint::PipeRead(1), Endpoint::File(0), I),
        ]
    );
}

#[test]
fn every_opened_resource_is_used_exactly_once() {
    for line in [
        "a",
        "a | b",
        "a | b | c | d",
        "a > f",
        "a > f > g 2> h",
        "a > f | b 2>> g | c >> h > i",
        "a 2> e | b 2> f | c",
    ] {
        let steps = plan(&parse_line(line)).unwrap();
        let mut made: Vec<Endpoint> = Vec::new();
        let mut used: Vec<Endpoint> = Vec::new();
        for (i, step) in steps.iter().enumerate() {
            match step {
                Step::Open { .. } => made.push(Endpoint::File(i)),
                Step::Pipe => {
                    made.push(Endpoint::PipeRead(i));
                    made.push(Endpoint::PipeWrite(i));
                }
                Step::Run { stdin, stdout, stderr, .. } => {
                    for e in [stdin, stdout, stderr] {
                        if *e != Endpoint::Inherit {
                            assert!(made.contains(e));
                            used.push(*e);
                        }
                    }
                }
                Step::Close(e) => {
                    assert!(made.contains(e));
                    used.push(*e);
                }
                Step::Wait(_) => {}
            }
        }
        for e in &made {
            assert_eq!(used.iter().filter(|u| *u == e).count(), 1);
        }
        assert_eq!(used.len(), made.len());
    }
}

#[test]
fn a_step_that_succeeds_lets_the_plan_go_on() {
    let steps = plan(&parse_line("a > f | b")).unwrap();
    for at in 0..steps.len() + 2 {
        assert_eq!(after_step(&steps, at, None), Next::Continue);
    }
}

#[test]
fn a_file_that_cannot_be_opened_ends_the_plan() {
    let steps = plan(&parse_line("echo hi > /no/such/dir/out.txt")).unwrap();
    assert_eq!(
        after_step(&steps, 0, Some(s("No such file or directory"))),
        Next::GiveUp { report: s("/no/such/dir/out.txt: No such file or directory\n"), rest: vec![] }
    );
}

#[test]
fn giving_up_closes_what_is_open() {
    let steps = plan(&parse_line("a > f | b > g")).unwrap();
    assert_eq!(steps[0], open("g", false));
    assert_eq!(steps[1], Step::Pipe);
    assert_eq!(steps[2], open("f", false));
    assert_eq!(
        after_step(&steps, 2, Some(s("Permission denied"))),
        Next::GiveUp {
            report: s("f: Permission denied\n"),
            rest: vec![
                Step::Close(Endpoint::File(0)),
                Step::Close(Endpoint::PipeRead(1)),
                Step::Close(Endpoint::PipeWrite(1)),
            ],
        }
    );
    assert_eq!(
        after_step(&steps, 1, Some(s("Too many open files"))),
        Next::GiveUp {
            report: s("pipe: Too many open files\n"),
            rest: vec![Step::Close(Endpoint::File(0))],
        }
    );
}

#[test]
fn giving_up_waits_for_what_was_started() {
    let expr = Expr::Pipe {
        src: Box::new(Expr::Pipe {
            src: Box::new(Expr::Command { name: s("a"), args: vec![] }),
            dest: Box::new(Expr::Command { name: s("b"), args: vec![] }),
        }),
        dest: Box::new(Expr::Redirect {
            src: Box::new(Expr::Command { name: s("c"), args: vec![] }),
            stream: Stream::Stdout,
            dest: s("f"),
        }),
    };
    let steps = plan(&expr).unwrap();
    assert_eq!(steps[4], open("f", false));
    assert_eq!(
        after_step(&steps, 4, Some(s("Permission denied"))),
        Next::GiveUp {
            report: s("f: Permission denied\n"),
            rest: vec![Step::Close(Endpoint::PipeRead(0)), Step::Wait(3), Step::Wait(2)],
        }
    );
}

#[test]
fn a_command_that_fails_does_not_end_the_plan() {
    let steps = plan(&parse_line("a > f | b")).unwrap();
    for at in 0..steps.len() + 2 {
        let next = after_step(&steps, at, Some(s("failed")));
        let ends = at < steps.len() && matches!(steps[at], Step::Open { .. } | Step::Pipe);
        assert_eq!(matches!(next, Next::GiveUp { .. }), ends);
    }
}
