use chitin::ast::{Cmd, Combinator, Expr, FromLexer, ParseError};
use chitin::lexer::Lexer;

fn b(s: &str) -> Vec<u8> {
    s.as_bytes().to_vec()
}

fn parse(line: &str) -> Result<Expr, ParseError> {
    Expr::parse(Lexer::new(b(line)))
}

fn single(comb: Combinator) -> Expr {
    Expr::Sequence(comb, Box::new(Expr::NoOp))
}

#[test]
fn empty_line_is_noop() {
    assert_eq!(parse(""), Ok(Expr::NoOp));
    assert_eq!(parse("   "), Ok(Expr::NoOp));
}

#[test]
fn exit_parses_bare() {
    assert_eq!(parse("exit"), Ok(single(Combinator::Identity(Cmd::Exit))));
}

#[test]
fn exit_rejects_arguments() {
    assert_eq!(parse("exit x"), Err(ParseError::ExitArgCount));
    assert_eq!(
        ParseError::ExitArgCount.message(),
        "wrong number of arguments supplied to 'exit'"
    );
}

#[test]
fn pwd_parses_bare_and_rejects_arguments() {
    assert_eq!(parse("pwd"), Ok(single(Combinator::Identity(Cmd::Pwd))));
    assert_eq!(parse("pwd x"), Err(ParseError::PwdArgCount));
    assert_eq!(
        ParseError::PwdArgCount.message(),
        "wrong number of arguments supplied to 'pwd'"
    );
}

#[test]
fn cd_takes_zero_or_one_argument() {
    assert_eq!(parse("cd"), Ok(single(Combinator::Identity(Cmd::Cd(None)))));
    assert_eq!(
        parse("cd /tmp"),
        Ok(single(Combinator::Identity(Cmd::Cd(Some(b("/tmp"))))))
    );
    assert_eq!(parse("cd a b"), Err(ParseError::CdArgCount));
    assert_eq!(
        ParseError::CdArgCount.message(),
        "wrong number of arguments supplied to 'cd'"
    );
}

#[test]
fn other_command_collects_arguments() {
    assert_eq!(
        parse("ls -l -a dir"),
        Ok(single(Combinator::Identity(Cmd::Other(
            b("ls"),
            vec![b("-l"), b("-a"), b("dir")]
        ))))
    );
}

#[test]
fn reserved_name_is_ordinary_text_as_argument() {
    assert_eq!(
        parse("echo exit"),
        Ok(single(Combinator::Identity(Cmd::Other(
            b("echo"),
            vec![b("exit")]
        ))))
    );
}

#[test]
fn redirect_binds_to_the_command() {
    assert_eq!(
        parse("echo hi>out.txt"),
        Ok(single(Combinator::Redirect(
            Cmd::Other(b("echo"), vec![b("hi")]),
            b("out.txt")
        )))
    );
}

#[test]
fn append_and_insert_redirects_parse() {
    assert_eq!(
        parse("a >> f"),
        Ok(single(Combinator::RedirectAppend(
            Cmd::Other(b("a"), vec![]),
            b("f")
        )))
    );
    assert_eq!(
        parse("a >+ f"),
        Ok(single(Combinator::RedirectInsert(
            Cmd::Other(b("a"), vec![]),
            b("f")
        )))
    );
}

#[test]
fn redirect_without_target_is_an_error() {
    assert_eq!(parse("echo >"), Err(ParseError::MissingRedirectTarget));
    assert_eq!(parse("echo > ; x"), Err(ParseError::MissingRedirectTarget));
    assert_eq!(ParseError::MissingRedirectTarget.message(), "expected argument");
}

#[test]
fn leading_operator_is_an_error() {
    assert_eq!(parse("; x"), Err(ParseError::UnexpectedToken));
    assert_eq!(
        ParseError::UnexpectedToken.message(),
        "expected argument or empty line"
    );
}

#[test]
fn semicolon_sequences_commands() {
    assert_eq!(
        parse("a ; b"),
        Ok(Expr::Sequence(
            Combinator::Identity(Cmd::Other(b("a"), vec![])),
            Box::new(Expr::Sequence(
                Combinator::Identity(Cmd::Other(b("b"), vec![])),
                Box::new(Expr::NoOp)
            ))
        ))
    );
}

#[test]
fn each_segment_may_carry_its_own_redirection() {
    assert_eq!(
        parse("a > f ; b >> g"),
        Ok(Expr::Sequence(
            Combinator::Redirect(Cmd::Other(b("a"), vec![]), b("f")),
            Box::new(Expr::Sequence(
                Combinator::RedirectAppend(Cmd::Other(b("b"), vec![]), b("g")),
                Box::new(Expr::NoOp)
            ))
        ))
    );
}

#[test]
fn trailing_semicolon_ends_in_noop() {
    assert_eq!(
        parse("a ;"),
        Ok(single(Combinator::Identity(Cmd::Other(b("a"), vec![]))))
    );
}

#[test]
fn pipe_has_no_parser_support() {
    // `|` is reserved lexically only: it neither sequences nor redirects, so
    // the expression ends at it and what follows is not consumed.
    assert_eq!(
        parse("a | b"),
        Ok(single(Combinator::Identity(Cmd::Other(b("a"), vec![]))))
    );
}

#[test]
fn a_second_redirection_is_not_chained() {
    assert_eq!(
        parse("a > f > g"),
        Ok(single(Combinator::Redirect(Cmd::Other(b("a"), vec![]), b("f"))))
    );
}

#[test]
fn cmd_from_lexer_stops_at_an_operator() {
    let lexer = Lexer::new(b("echo hi > f"));
    let (cmd, mut rest) = Cmd::from_lexer(lexer).unwrap();
    assert_eq!(cmd, Cmd::Other(b("echo"), vec![b("hi")]));
    let t = rest.next().unwrap();
    assert!(t.is_op());
    assert_eq!(t.unwrap(), b(">"));
}

#[test]
fn combinator_from_lexer_leaves_the_semicolon() {
    let lexer = Lexer::new(b("a > f ; b"));
    let (comb, mut rest) = Combinator::from_lexer(lexer).unwrap();
    assert_eq!(
        comb,
        Combinator::Redirect(Cmd::Other(b("a"), vec![]), b("f"))
    );
    let t = rest.next().unwrap();
    assert_eq!(t.unwrap(), b(";"));
}

#[test]
fn cmd_from_parts_checks_arity() {
    assert_eq!(Cmd::from_parts(b("exit"), vec![]), Ok(Cmd::Exit));
    assert_eq!(
        Cmd::from_parts(b("exit"), vec![b("x")]),
        Err(ParseError::ExitArgCount)
    );
    assert_eq!(Cmd::from_parts(b("cd"), vec![]), Ok(Cmd::Cd(None)));
    assert_eq!(
        Cmd::from_parts(b("cd"), vec![b("p")]),
        Ok(Cmd::Cd(Some(b("p"))))
    );
    assert_eq!(Cmd::from_parts(b("pwd"), vec![]), Ok(Cmd::Pwd));
    assert_eq!(
        Cmd::from_parts(b("tool"), vec![b("x")]),
        Ok(Cmd::Other(b("tool"), vec![b("x")]))
    );
}
