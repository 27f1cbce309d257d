use minishell::parser::{Expr, ParseError, Parser, Stream};
use minishell::tokenizer::{Token, Tokenizer};

fn parse_line(line: &str) -> Result<Expr, ParseError> {
    let mut parser = Parser::new(Tokenizer::tokenize(line).unwrap());
    parser.parse()?;
    Ok(parser.ast().unwrap())
}

fn command(name: &str, args: &[&str]) -> Expr {
    Expr::Command {
        name: name.to_string(),
        args: args.iter().map(|s| s.to_string()).collect(),
    }
}

fn pipe(src: Expr, dest: Expr) -> Expr {
    Expr::Pipe { src: Box::new(src), dest: Box::new(dest) }
}

fn redirect(src: Expr, stream: Stream, dest: &str) -> Expr {
    Expr::Redirect { src: Box::new(src), stream, dest: dest.to_string() }
}

fn append(src: Expr, stream: Stream, dest: &str) -> Expr {
    Expr::Append { src: Box::new(src), stream, dest: dest.to_string() }
}

#[test]
fn pipes_associate_to_the_left() {
    assert_eq!(
        parse_line("cat f.txt | head -n 2 | wc -l"),
        Ok(pipe(
            pipe(command("cat", &["f.txt"]), command("head", &["-n", "2"])),
            command("wc", &["-l"])
        ))
    );
}

#[test]
fn redirect_wraps_the_command() {
    assert_eq!(
        parse_line("echo hi > out.txt"),
        Ok(redirect(command("echo", &["hi"]), Stream::Stdout, "out.txt"))
    );
}

#[test]
fn redirect_without_destination_is_an_error() {
    assert_eq!(parse_line("echo hi >"), Err(ParseError::MissingDestination));
    assert_eq!(parse_line("echo hi > | wc"), Err(ParseError::MissingDestination));
    assert_eq!(parse_line("echo hi 2>>"), Err(ParseError::MissingDestination));
}

#[test]
fn single_command_without_arguments() {
    assert_eq!(parse_line("pwd"), Ok(command("pwd", &[])));
}

#[test]
fn stream_numbers_select_the_stream() {
    assert_eq!(
        parse_line("a 1> f"),
        Ok(redirect(command("a", &[]), Stream::Stdout, "f"))
    );
    assert_eq!(
        parse_line("a 2> f"),
        Ok(redirect(command("a", &[]), Stream::Stderr, "f"))
    );
}

#[test]
fn append_operators_build_append_nodes() {
    assert_eq!(parse_line("a >> f"), Ok(append(command("a", &[]), Stream::Stdout, "f")));
    assert_eq!(parse_line("a 1>> f"), Ok(append(command("a", &[]), Stream::Stdout, "f")));
    assert_eq!(parse_line("a 2>> f"), Ok(append(command("a", &[]), Stream::Stderr, "f")));
}

#[test]
fn redirect_before_pipe_is_piped_as_a_whole() {
    assert_eq!(
        parse_line("cmd > f | other"),
        Ok(pipe(redirect(command("cmd", &[]), Stream::Stdout, "f"), command("other", &[])))
    );
}

#[test]
fn redirects_chain_to_the_left() {
    assert_eq!(
        parse_line("a > f 2> g"),
        Ok(redirect(
            redirect(command("a", &[]), Stream::Stdout, "f"),
            Stream::Stderr,
            "g"
        ))
    );
}

#[test]
fn stdin_redirection_is_unsupported() {
    assert_eq!(parse_line("a 0> f"), Err(ParseError::Unsupported));
    assert_eq!(parse_line("a 0>> f"), Err(ParseError::Unsupported));
}

#[test]
fn background_is_unsupported() {
    assert_eq!(parse_line("a &"), Err(ParseError::Unsupported));
}

#[test]
fn missing_command_is_an_error() {
    assert_eq!(parse_line(""), Err(ParseError::MissingCommand));
    assert_eq!(parse_line("| a"), Err(ParseError::MissingCommand));
    assert_eq!(parse_line("a |"), Err(ParseError::MissingCommand));
    assert_eq!(parse_line("a | > f"), Err(ParseError::MissingCommand));
    assert_eq!(parse_line("> f"), Err(ParseError::MissingCommand));
}

#[test]
fn empty_command_name_is_an_error() {
    assert_eq!(parse_line("'' a"), Err(ParseError::MissingCommand));
    assert_eq!(parse_line("a | \"\""), Err(ParseError::MissingCommand));
}

#[test]
fn empty_argument_is_kept() {
    assert_eq!(parse_line("a '' b"), Ok(command("a", &["", "b"])));
}

#[test]
fn word_after_destination_is_an_error() {
    assert_eq!(parse_line("echo a > f b"), Err(ParseError::UnexpectedWord));
}

#[test]
fn ast_is_absent_before_and_after_a_failed_parse() {
    let parser = Parser::new(vec![Token::Pipe]);
    assert_eq!(parser.ast(), None);
    let mut parser = Parser::new(vec![Token::Pipe]);
    assert_eq!(parser.parse(), Err(ParseError::MissingCommand));
    assert_eq!(parser.ast(), None);
}
