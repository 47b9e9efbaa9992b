use chitin::ast::Expr;
use chitin::eval::{
    LaunchOutcome, LaunchRequest, ResultKind, Runnable, RuntimeError, ShellEnv,
};
use chitin::lexer::Lexer;

fn b(s: &str) -> Vec<u8> {
    s.as_bytes().to_vec()
}

fn parse(line: &str) -> Expr {
    Expr::parse(Lexer::new(b(line))).unwrap()
}

fn env_at(cwd: &str) -> ShellEnv {
    ShellEnv::new(b(cwd), Some(b("/home/user")))
}

#[test]
fn empty_line_evaluates_to_ok_with_no_output() {
    let mut env = env_at("/w");
    let r = parse("").run(&mut env);
    assert_eq!(r, Ok(ResultKind::Continue));
    assert_eq!(env.ambient, b(""));
    assert_eq!(env.launched, vec![]);
}

#[test]
fn exit_is_terminal() {
    let mut env = env_at("/w");
    let r = parse("exit").run(&mut env);
    assert_eq!(r, Ok(ResultKind::Exit));
    assert_eq!(env.ambient, b(""));
}

#[test]
fn cd_without_argument_goes_home() {
    let mut env = env_at("/w");
    let r = parse("cd").run(&mut env);
    assert_eq!(r, Ok(ResultKind::Continue));
    assert_eq!(env.cwd, b("/home/user"));
}

#[test]
fn cd_with_argument_goes_there() {
    let mut env = env_at("/w");
    let r = parse("cd /tmp").run(&mut env);
    assert_eq!(r, Ok(ResultKind::Continue));
    assert_eq!(env.cwd, b("/tmp"));
}

#[test]
fn cd_without_home_is_a_runtime_error() {
    let mut env = ShellEnv::new(b("/w"), None);
    let r = parse("cd").run(&mut env);
    assert_eq!(r, Err(RuntimeError::HomeNotSet));
    assert_eq!(env.cwd, b("/w"));
    assert_eq!(
        RuntimeError::HomeNotSet.message(),
        "could not locate home directory"
    );
}

#[test]
fn pwd_writes_the_working_directory() {
    let mut env = env_at("/some/where");
    let r = parse("pwd").run(&mut env);
    assert_eq!(r, Ok(ResultKind::Continue));
    assert_eq!(env.ambient, b("/some/where\n"));
}

#[test]
fn pwd_redirected_leaves_the_ambient_sink_silent() {
    let mut env = env_at("/some/where");
    let r = parse("pwd > out.txt").run(&mut env);
    assert_eq!(r, Ok(ResultKind::Continue));
    assert_eq!(env.get_file(&b("out.txt")), Some(b("/some/where\n")));
    assert_eq!(env.ambient, b(""));
}

#[test]
fn sequence_runs_left_then_right() {
    let mut env = env_at("/w");
    env.outcomes.push(LaunchOutcome::Captured(b("a\n")));
    env.outcomes.push(LaunchOutcome::Captured(b("b\n")));
    let r = parse("echo a ; echo b").run(&mut env);
    assert_eq!(r, Ok(ResultKind::Continue));
    assert_eq!(env.ambient, b("a\nb\n"));
    assert_eq!(
        env.launched,
        vec![
            LaunchRequest { program: b("echo"), args: vec![b("a")] },
            LaunchRequest { program: b("echo"), args: vec![b("b")] },
        ]
    );
}

#[test]
fn exit_stops_the_rest_of_the_line() {
    let mut env = env_at("/w");
    env.outcomes.push(LaunchOutcome::Captured(b("a\n")));
    let r = parse("exit ; echo a").run(&mut env);
    assert_eq!(r, Ok(ResultKind::Exit));
    assert_eq!(env.ambient, b(""));
    assert_eq!(env.launched, vec![]);
}

#[test]
fn an_error_stops_the_rest_of_the_line() {
    let mut env = ShellEnv::new(b("/w"), None);
    env.outcomes.push(LaunchOutcome::Captured(b("a\n")));
    let r = parse("cd ; echo a").run(&mut env);
    assert_eq!(r, Err(RuntimeError::HomeNotSet));
    assert_eq!(env.launched, vec![]);
}

#[test]
fn redirect_replaces_the_file() {
    let mut env = env_at("/w");
    env.set_file(b("f"), b("OLD"));
    env.outcomes.push(LaunchOutcome::Captured(b("new\n")));
    let r = parse("echo new > f").run(&mut env);
    assert_eq!(r, Ok(ResultKind::Continue));
    assert_eq!(env.get_file(&b("f")), Some(b("new\n")));
    assert_eq!(env.ambient, b(""));
}

#[test]
fn append_keeps_what_was_there() {
    let mut env = env_at("/w");
    env.set_file(b("f"), b("A"));
    env.outcomes.push(LaunchOutcome::Captured(b("B\n")));
    let r = parse("echo B >> f").run(&mut env);
    assert_eq!(r, Ok(ResultKind::Continue));
    assert_eq!(env.get_file(&b("f")), Some(b("AB\n")));
}

#[test]
fn append_creates_a_missing_file() {
    let mut env = env_at("/w");
    env.outcomes.push(LaunchOutcome::Captured(b("B\n")));
    let r = parse("echo B >> f").run(&mut env);
    assert_eq!(r, Ok(ResultKind::Continue));
    assert_eq!(env.get_file(&b("f")), Some(b("B\n")));
}

#[test]
fn insert_prepends_to_the_file() {
    let mut env = env_at("/w");
    env.set_file(b("f.txt"), b("OLD"));
    env.outcomes.push(LaunchOutcome::Captured(b("a\n")));
    let r = parse("echo a >+ f.txt").run(&mut env);
    assert_eq!(r, Ok(ResultKind::Continue));
    assert_eq!(env.get_file(&b("f.txt")), Some(b("a\nOLD")));
}

#[test]
fn insert_needs_an_existing_file() {
    let mut env = env_at("/w");
    env.outcomes.push(LaunchOutcome::Captured(b("a\n")));
    let r = parse("echo a >+ missing").run(&mut env);
    assert_eq!(r, Err(RuntimeError::NoSuchFile));
    assert_eq!(env.get_file(&b("missing")), None);
    assert_eq!(env.launched, vec![]);
    assert_eq!(
        RuntimeError::NoSuchFile.message(),
        "no such file or directory"
    );
}

#[test]
fn a_failed_launch_is_a_runtime_error() {
    let mut env = env_at("/w");
    env.outcomes.push(LaunchOutcome::Failed);
    let r = parse("nosuchtool").run(&mut env);
    assert_eq!(r, Err(RuntimeError::LaunchFailed));
    assert_eq!(env.ambient, b(""));
    assert_eq!(
        env.launched,
        vec![LaunchRequest { program: b("nosuchtool"), args: vec![] }]
    );
    assert_eq!(RuntimeError::LaunchFailed.message(), "could not run the command");
}

#[test]
fn an_exhausted_launcher_is_a_runtime_error() {
    let mut env = env_at("/w");
    let r = parse("tool").run(&mut env);
    assert_eq!(r, Err(RuntimeError::LaunchFailed));
}

#[test]
fn a_failed_command_still_truncates_its_redirect_target() {
    let mut env = env_at("/w");
    env.set_file(b("f"), b("OLD"));
    env.outcomes.push(LaunchOutcome::Failed);
    let r = parse("tool > f").run(&mut env);
    assert_eq!(r, Err(RuntimeError::LaunchFailed));
    assert_eq!(env.get_file(&b("f")), Some(b("")));
}

#[test]
fn a_failed_command_still_rewrites_its_insert_target() {
    let mut env = env_at("/w");
    env.set_file(b("f"), b("OLD"));
    env.outcomes.push(LaunchOutcome::Failed);
    let r = parse("tool >+ f").run(&mut env);
    assert_eq!(r, Err(RuntimeError::LaunchFailed));
    assert_eq!(env.get_file(&b("f")), Some(b("OLD")));
}

#[test]
fn working_directory_persists_across_a_sequence() {
    let mut env = env_at("/w");
    let r = parse("cd /tmp ; pwd").run(&mut env);
    assert_eq!(r, Ok(ResultKind::Continue));
    assert_eq!(env.ambient, b("/tmp\n"));
    assert_eq!(env.cwd, b("/tmp"));
}
