use chitin::lexer::{tokenize, Lexer, Token};

fn b(s: &str) -> Vec<u8> {
    s.as_bytes().to_vec()
}

fn arg(s: &str) -> Token {
    Token::Arg(b(s))
}

fn op(s: &str) -> Token {
    Token::Op(b(s))
}

#[test]
fn splits_on_whitespace() {
    assert_eq!(tokenize(b("echo hi")), vec![arg("echo"), arg("hi")]);
}

#[test]
fn finds_operator_inside_chunk() {
    assert_eq!(
        tokenize(b("echo hi>out.txt")),
        vec![arg("echo"), arg("hi"), op(">"), arg("out.txt")]
    );
}

#[test]
fn append_is_never_two_redirects() {
    assert_eq!(tokenize(b("a>>b")), vec![arg("a"), op(">>"), arg("b")]);
}

#[test]
fn insert_takes_priority_over_redirect() {
    assert_eq!(tokenize(b("a>+b")), vec![arg("a"), op(">+"), arg("b")]);
}

#[test]
fn empty_line_has_no_tokens() {
    assert_eq!(tokenize(b("")), vec![]);
    assert_eq!(tokenize(b("   \t ")), vec![]);
}

#[test]
fn surrounding_whitespace_is_dropped() {
    assert_eq!(tokenize(b("  echo   hi ")), vec![arg("echo"), arg("hi")]);
}

#[test]
fn operator_at_chunk_start() {
    assert_eq!(tokenize(b(">out")), vec![op(">"), arg("out")]);
    assert_eq!(tokenize(b("a ;b")), vec![arg("a"), op(";"), arg("b")]);
}

#[test]
fn pipe_is_reserved_lexically() {
    assert_eq!(tokenize(b("a|b")), vec![arg("a"), op("|"), arg("b")]);
}

#[test]
fn chained_operators_in_one_chunk() {
    assert_eq!(
        tokenize(b("a>b>>c")),
        vec![arg("a"), op(">"), arg("b"), op(">>"), arg("c")]
    );
}

#[test]
fn lexer_hands_out_tokens_one_by_one() {
    let mut lexer = Lexer::new(b("echo hi>f"));
    let t = lexer.next().unwrap();
    assert!(t.is_arg());
    assert!(!t.is_op());
    assert_eq!(t.unwrap(), b("echo"));
    assert_eq!(lexer.next(), Some(arg("hi")));
    let t = lexer.next().unwrap();
    assert!(t.is_op());
    assert_eq!(t.unwrap(), b(">"));
    assert_eq!(lexer.next(), Some(arg("f")));
    assert_eq!(lexer.next(), None);
    assert_eq!(lexer.next(), None);
}

#[test]
fn unread_token_comes_back_first() {
    let mut lexer = Lexer::new(b("a b"));
    let t = lexer.next().unwrap();
    lexer.unread(t);
    assert_eq!(lexer.next(), Some(arg("a")));
    assert_eq!(lexer.next(), Some(arg("b")));
    assert_eq!(lexer.next(), None);
}

#[test]
fn token_bytes_reassemble_the_line_without_spaces() {
    let line = "echo  a>>b c >+ d ; e";
    let mut glued: Vec<u8> = Vec::new();
    for t in tokenize(b(line)) {
        glued.extend_from_slice(&t.unwrap());
    }
    let expected: Vec<u8> = line
        .as_bytes()
        .iter()
        .copied()
        .filter(|c| !c.is_ascii_whitespace())
        .collect();
    assert_eq!(glued, expected);
}

#[test]
fn argument_text_is_preserved_verbatim() {
    let args: Vec<Vec<u8>> = tokenize(b("grep -n foo.bar baz_1 > out"))
        .into_iter()
        .filter(|t| t.is_arg())
        .map(|t| t.unwrap())
        .collect();
    assert_eq!(
        args,
        vec![b("grep"), b("-n"), b("foo.bar"), b("baz_1"), b("out")]
    );
}
