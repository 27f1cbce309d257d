use minishell::commands::{
    bare_name, candidate_paths, complaint, find_path, get_commands, is_builtin, split_paths, Action, Binary,
    Cd, Command, Echo, Exit, FileInfo, History, HistoryArg, Need, Outcome, Pwd, Type, UsageError,
};

fn s(text: &str) -> String {
    text.to_string()
}

fn list(words: &[&str]) -> Vec<String> {
    words.iter().map(|w| w.to_string()).collect()
}

fn says(text: &str) -> Outcome {
    Outcome { stdout: s(text), stderr: s(""), action: Action::Nothing }
}

fn complains(text: &str) -> Outcome {
    Outcome { stdout: s(""), stderr: s(text), action: Action::Nothing }
}

fn does(action: Action) -> Outcome {
    Outcome { stdout: s(""), stderr: s(""), action }
}

fn file(name: &str, is_file: bool, mode: u32) -> FileInfo {
    FileInfo { name: s(name), is_file, mode }
}

fn store(lines: &[&str]) -> minishell::history::History {
    let mut h = minishell::history::History::new();
    for l in lines {
        h.add(s(l));
    }
    h
}

#[test]
fn builtin_names() {
    for name in ["echo", "cd", "pwd", "type", "exit", "history"] {
        assert!(is_builtin(name));
    }
    for name in ["", "ls", "Echo", "echo ", "cdd", "c"] {
        assert!(!is_builtin(name));
    }
}

#[test]
fn command_new_classifies_by_name() {
    assert_eq!(
        Command::new(s("cd"), list(&["/tmp", "x"])),
        Ok(Command::Cd(Cd { target_directory: Some(s("/tmp")) }))
    );
    assert_eq!(Command::new(s("cd"), list(&[])), Ok(Command::Cd(Cd { target_directory: None })));
    assert_eq!(Command::new(s("pwd"), list(&["x"])), Ok(Command::Pwd(Pwd)));
    assert_eq!(
        Command::new(s("echo"), list(&["a", "b"])),
        Ok(Command::Echo(Echo { args: list(&["a", "b"]) }))
    );
    assert_eq!(Command::new(s("exit"), list(&[])), Ok(Command::Exit(Exit { code: None })));
    assert_eq!(
        Command::new(s("type"), list(&["ls"])),
        Ok(Command::Type(Type { command: s("ls") }))
    );
    assert_eq!(
        Command::new(s("history"), list(&[])),
        Ok(Command::History(History { argument: HistoryArg::All }))
    );
    assert_eq!(
        Command::new(s("ls"), list(&["-l"])),
        Ok(Command::Binary(Binary { path: s("ls"), args: list(&["-l"]) }))
    );
}

#[test]
fn command_new_reports_bad_usage() {
    assert_eq!(Command::new(s("type"), list(&[])), Err(UsageError::MissingArgument));
    assert_eq!(Command::new(s("history"), list(&["-r"])), Err(UsageError::MissingArgument));
    assert_eq!(Command::new(s("history"), list(&["abc"])), Err(UsageError::NotANumber));
}

#[test]
fn usage_errors_have_a_message() {
    assert_eq!(UsageError::MissingArgument.message("type"), "type: missing argument\n");
    assert_eq!(UsageError::NotANumber.message("history"), "history: numeric argument required\n");
}

#[test]
fn exit_code_is_parsed() {
    assert_eq!(Command::new(s("exit"), list(&["3"])), Ok(Command::Exit(Exit { code: Some(3) })));
    assert_eq!(Command::new(s("exit"), list(&["+7"])), Ok(Command::Exit(Exit { code: Some(7) })));
    assert_eq!(Command::new(s("exit"), list(&["-1"])), Ok(Command::Exit(Exit { code: Some(-1) })));
    assert_eq!(Command::new(s("exit"), list(&["-0"])), Ok(Command::Exit(Exit { code: Some(0) })));
    assert_eq!(
        Command::new(s("exit"), list(&["2147483647"])),
        Ok(Command::Exit(Exit { code: Some(i32::MAX) }))
    );
    assert_eq!(
        Command::new(s("exit"), list(&["-2147483648"])),
        Ok(Command::Exit(Exit { code: Some(i32::MIN) }))
    );
}

#[test]
fn exit_is_built_whatever_its_arguments_are() {
    for bad in ["abc", "2147483648", "-2147483649", "", "-", "+", "-+1", "+-1", "1x", " 1", "--1"] {
        assert_eq!(Command::new(s("exit"), list(&[bad])), Ok(Command::Exit(Exit { code: None })));
    }
    assert_eq!(
        Command::new(s("exit"), list(&["abc", "3"])),
        Ok(Command::Exit(Exit { code: None }))
    );
    assert_eq!(
        Command::new(s("exit"), list(&["3", "abc"])),
        Ok(Command::Exit(Exit { code: Some(3) }))
    );
    let mut h = store(&[]);
    let exit = Command::new(s("exit"), list(&["abc"])).unwrap();
    assert_eq!(exit.needs(), Need::Nothing);
    assert_eq!(exit.execute(None, &mut h), does(Action::Exit { code: 0, history: s("") }));
}

#[test]
fn exit_code_agrees_with_the_standard_library() {
    for text in ["0", "12", "+12", "-12", "007", "-007", "99999999999", "", "+", "-", "1 ", "٣"] {
        let expected = text.parse::<i32>().ok();
        assert_eq!(Command::new(s("exit"), list(&[text])), Ok(Command::Exit(Exit { code: expected })));
    }
}

#[test]
fn history_arg_new_reads_the_arguments() {
    assert_eq!(HistoryArg::new(&list(&[])), Ok(HistoryArg::All));
    assert_eq!(HistoryArg::new(&list(&["5"])), Ok(HistoryArg::Amount(5)));
    assert_eq!(HistoryArg::new(&list(&["+5"])), Ok(HistoryArg::Amount(5)));
    assert_eq!(HistoryArg::new(&list(&["0"])), Ok(HistoryArg::Amount(0)));
    assert_eq!(HistoryArg::new(&list(&["007"])), Ok(HistoryArg::Amount(7)));
    assert_eq!(HistoryArg::new(&list(&["-r", "f"])), Ok(HistoryArg::Read(s("f"))));
    assert_eq!(HistoryArg::new(&list(&["-w", "f"])), Ok(HistoryArg::Write(s("f"))));
    assert_eq!(HistoryArg::new(&list(&["-a", "f", "g"])), Ok(HistoryArg::Append(s("f"))));
    assert_eq!(HistoryArg::new(&list(&["-w"])), Err(UsageError::MissingArgument));
    assert_eq!(HistoryArg::new(&list(&["-a"])), Err(UsageError::MissingArgument));
    assert_eq!(HistoryArg::new(&list(&["-5"])), Err(UsageError::NotANumber));
    assert_eq!(HistoryArg::new(&list(&["-x", "f"])), Err(UsageError::NotANumber));
    assert_eq!(HistoryArg::new(&list(&[""])), Err(UsageError::NotANumber));
    assert_eq!(
        HistoryArg::new(&list(&["99999999999999999999999999"])),
        Err(UsageError::NotANumber)
    );
    assert_eq!(
        HistoryArg::new(&list(&[&usize::MAX.to_string()])),
        Ok(HistoryArg::Amount(usize::MAX))
    );
}

#[test]
fn echo_joins_its_arguments() {
    assert_eq!(Echo { args: list(&["a", "b c", "d"]) }.execute(), says("a b c d\n"));
    assert_eq!(Echo { args: list(&[]) }.execute(), says("\n"));
    assert_eq!(Echo { args: list(&["", ""]) }.execute(), says(" \n"));
}

#[test]
fn cd_to_a_missing_directory_reports_and_changes_nothing() {
    let cd = Cd { target_directory: Some(s("/no/such/dir")) };
    assert_eq!(cd.needs(), Need::Resolve(s("/no/such/dir")));
    assert_eq!(cd.execute(None), complains("cd: /no/such/dir: No such file or directory\n"));
}

#[test]
fn cd_to_a_directory_asks_for_the_change() {
    let cd = Cd { target_directory: Some(s("src")) };
    assert_eq!(cd.execute(Some(s("/work/src"))), does(Action::ChangeDirectory(s("/work/src"))));
}

#[test]
fn cd_without_target_or_with_tilde_goes_home() {
    assert_eq!(Cd { target_directory: None }.needs(), Need::Home);
    assert_eq!(Cd { target_directory: Some(s("~")) }.needs(), Need::Home);
    assert_eq!(Cd { target_directory: Some(s("~/x")) }.needs(), Need::Resolve(s("~/x")));
    assert_eq!(
        Cd { target_directory: None }.execute(None),
        complains("cd: ~: No such file or directory\n")
    );
}

#[test]
fn type_tells_builtins_from_files() {
    let t = Type { command: s("echo") };
    assert_eq!(Command::Type(Type { command: s("echo") }).needs(), Need::Nothing);
    assert_eq!(t.execute(None), says("echo is a shell builtin\n"));
    assert_eq!(t.execute(Some(s("/bin/echo"))), says("echo is a shell builtin\n"));
    let t = Type { command: s("ls") };
    assert_eq!(Command::Type(Type { command: s("ls") }).needs(), Need::Lookup(s("ls")));
    assert_eq!(t.execute(Some(s("/bin/ls"))), says("ls is /bin/ls\n"));
    assert_eq!(t.execute(None), complains("ls: not found\n"));
}

#[test]
fn pwd_writes_the_working_directory() {
    assert_eq!(Command::Pwd(Pwd).needs(), Need::WorkingDirectory);
    assert_eq!(Pwd.execute(Some(s("/home/u"))), says("/home/u\n"));
    assert_eq!(Pwd.execute(None), complains("pwd: cannot tell the working directory\n"));
}

#[test]
fn exit_asks_to_leave() {
    let h = store(&["ls", "exit 3"]);
    assert_eq!(
        Exit { code: None }.execute(&h),
        does(Action::Exit { code: 0, history: s("ls\nexit 3\n") })
    );
    assert_eq!(
        Exit { code: Some(3) }.execute(&h),
        does(Action::Exit { code: 3, history: s("ls\nexit 3\n") })
    );
    assert_eq!(
        Exit { code: Some(-1) }.execute(&store(&[])),
        does(Action::Exit { code: -1, history: s("") })
    );
}

#[test]
fn binary_is_started_under_its_bare_name() {
    let b = Binary { path: s("ls"), args: list(&["-l", "x"]) };
    assert_eq!(Command::Binary(Binary { path: s("ls"), args: list(&[]) }).needs(), Need::Lookup(s("ls")));
    assert_eq!(
        b.execute(Some(s("/usr/bin/ls"))),
        does(Action::Spawn { program: s("/usr/bin/ls"), name: s("ls"), args: list(&["-l", "x"]) })
    );
}

#[test]
fn unknown_command_is_reported() {
    let b = Binary { path: s("nope"), args: list(&[]) };
    assert_eq!(b.execute(None), complains("nope: command not found\n"));
}

#[test]
fn bare_name_is_what_follows_the_last_slash() {
    assert_eq!(bare_name("/usr/bin/ls"), "ls");
    assert_eq!(bare_name("ls"), "ls");
    assert_eq!(bare_name("./ls"), "ls");
    assert_eq!(bare_name("/"), "");
    assert_eq!(bare_name(""), "");
    assert_eq!(bare_name("a/b/"), "");
}

#[test]
fn history_lists_numbered_lines() {
    let mut h = store(&["ls", "pwd", "echo hi"]);
    let all = History { argument: HistoryArg::All };
    assert_eq!(all.execute(&mut h), says("  1 ls\n  2 pwd\n  3 echo hi\n"));
    let two = History { argument: HistoryArg::Amount(2) };
    assert_eq!(two.execute(&mut h), says("  2 pwd\n  3 echo hi\n"));
    let none = History { argument: HistoryArg::Amount(0) };
    assert_eq!(none.execute(&mut h), says(""));
    let many = History { argument: HistoryArg::Amount(10) };
    assert_eq!(many.execute(&mut h), says("  1 ls\n  2 pwd\n  3 echo hi\n"));
}

#[test]
fn history_numbers_have_no_padding() {
    let lines: Vec<String> = (0..12).map(|i| format!("c{}", i)).collect();
    let mut h = minishell::history::History::new();
    for l in &lines {
        h.add(l.clone());
    }
    let last = History { argument: HistoryArg::Amount(3) };
    assert_eq!(last.execute(&mut h), says("  10 c9\n  11 c10\n  12 c11\n"));
}

#[test]
fn history_file_actions() {
    let mut h = store(&["a", "b"]);
    assert_eq!(
        History { argument: HistoryArg::Read(s("f")) }.execute(&mut h),
        does(Action::ReadHistory(s("f")))
    );
    assert_eq!(
        History { argument: HistoryArg::Write(s("f")) }.execute(&mut h),
        does(Action::WriteHistory { path: s("f"), text: s("a\nb\n") })
    );
    assert_eq!(
        History { argument: HistoryArg::Append(s("f")) }.execute(&mut h),
        does(Action::AppendHistory { path: s("f"), text: s("a\nb\n") })
    );
    h.add(s("c"));
    assert_eq!(
        History { argument: HistoryArg::Append(s("f")) }.execute(&mut h),
        does(Action::AppendHistory { path: s("f"), text: s("c\n") })
    );
    assert_eq!(
        History { argument: HistoryArg::Append(s("f")) }.execute(&mut h),
        does(Action::AppendHistory { path: s("f"), text: s("") })
    );
}

#[test]
fn command_execute_dispatches() {
    let mut h = store(&["x"]);
    let echo = Command::new(s("echo"), list(&["hi"])).unwrap();
    assert_eq!(echo.needs(), Need::Nothing);
    assert_eq!(echo.execute(None, &mut h), says("hi\n"));
    let hist = Command::new(s("history"), list(&[])).unwrap();
    assert_eq!(hist.execute(None, &mut h), says("  1 x\n"));
    let ls = Command::new(s("ls"), list(&[])).unwrap();
    assert_eq!(ls.execute(None, &mut h), complains("ls: command not found\n"));
    let cd = Command::new(s("cd"), list(&["nowhere"])).unwrap();
    assert_eq!(cd.execute(None, &mut h), complains("cd: nowhere: No such file or directory\n"));
    let exit = Command::new(s("exit"), list(&[])).unwrap();
    assert_eq!(exit.execute(None, &mut h), does(Action::Exit { code: 0, history: s("x\n") }));
    assert_eq!(h.len(), 1);
}

#[test]
fn split_paths_keeps_empty_pieces() {
    assert_eq!(split_paths("/bin:/usr/bin"), list(&["/bin", "/usr/bin"]));
    assert_eq!(split_paths("/bin"), list(&["/bin"]));
    assert_eq!(split_paths(""), list(&[""]));
    assert_eq!(split_paths(":/bin::/x:"), list(&["", "/bin", "", "/x", ""]));
}

#[test]
fn candidate_paths_follow_the_search_path() {
    assert_eq!(
        candidate_paths("ls", "/bin:/usr/bin/::rel"),
        list(&["/bin/ls", "/usr/bin/ls", "ls", "rel/ls"])
    );
    assert_eq!(candidate_paths("/abs/ls", "/bin:/usr"), list(&["/abs/ls", "/abs/ls"]));
}

#[test]
fn find_path_takes_the_first_executable_regular_file() {
    let files = vec![
        file("/a/ls", true, 0o644),
        file("/b/ls", false, 0o755),
        file("/c/ls", true, 0o100),
        file("/d/ls", true, 0o755),
    ];
    assert_eq!(find_path(&files), Some(s("/c/ls")));
    assert_eq!(find_path(&files[..2].iter().map(|f| file(&f.name, f.is_file, f.mode)).collect()), None);
    assert_eq!(find_path(&vec![]), None);
    assert_eq!(find_path(&vec![file("x", true, 0o010)]), Some(s("x")));
    assert_eq!(find_path(&vec![file("x", true, 0o001)]), Some(s("x")));
    assert_eq!(find_path(&vec![file("x", true, 0o666)]), None);
}

#[test]
fn is_executable_needs_a_regular_file_and_an_execute_bit() {
    assert!(file("x", true, 0o755).is_executable());
    assert!(!file("x", true, 0o644).is_executable());
    assert!(!file("x", false, 0o755).is_executable());
}

#[test]
fn get_commands_joins_builtins_and_executables() {
    let files = vec![
        file("ls", true, 0o755),
        file("notes.txt", true, 0o644),
        file("dir", false, 0o755),
        file("cat", true, 0o755),
        file("ls", true, 0o755),
        file("echo", true, 0o755),
    ];
    assert_eq!(
        get_commands(&files),
        list(&["cat", "cd", "echo", "exit", "history", "ls", "pwd", "type"])
    );
    assert_eq!(get_commands(&vec![]), list(&["cd", "echo", "exit", "history", "pwd", "type"]));
}

#[test]
fn actions_that_fail_have_a_line() {
    assert_eq!(
        Action::ChangeDirectory(s("/root")).failure("Permission denied"),
        "cd: /root: Permission denied\n"
    );
    assert_eq!(
        Action::ReadHistory(s("h")).failure("No such file or directory"),
        "history: h: No such file or directory\n"
    );
    assert_eq!(
        Action::WriteHistory { path: s("h"), text: s("a\n") }.failure("denied"),
        "history: h: denied\n"
    );
    assert_eq!(
        Action::AppendHistory { path: s("h"), text: s("a\n") }.failure("denied"),
        "history: h: denied\n"
    );
    assert_eq!(
        Action::Spawn { program: s("/bin/ls"), name: s("ls"), args: vec![] }.failure("denied"),
        "ls: denied\n"
    );
    assert_eq!(Action::Nothing.failure("denied"), "");
    assert_eq!(Action::Exit { code: 1, history: s("a\n") }.failure("denied"), "");
    assert_eq!(complaint("/tmp/h", "Permission denied"), "/tmp/h: Permission denied\n");
    assert_eq!(complaint("", ""), ": \n");
}
