//! Parser: recursive descent over the token stream, one token of lookahead.
//!
//! Grammar:
//! ```text
//! Expression := Combinator ';' Expression | Combinator | e      (e -> NoOp)
//! Combinator := Command ( '>' Path | '>>' Path | '>+' Path )?
//! Command    := 'exit' | 'cd' Path? | 'pwd' | Name Arg* | e
//! ```

use vstd::prelude::*;

use crate::lexer::{Lexer, Token, TokenView, BYTE_GT, BYTE_PLUS, BYTE_SEMI};

verus! {

/// Why a line failed to parse.
#[derive(Debug, PartialEq, Eq, Structural, Clone, Copy)]
pub enum ParseError {
    /// `exit` takes no arguments.
    ExitArgCount,
    /// `cd` takes at most one argument.
    CdArgCount,
    /// `pwd` takes no arguments.
    PwdArgCount,
    /// A redirection operator was not followed by a target path.
    MissingRedirectTarget,
    /// A command began with an operator instead of a name.
    UnexpectedToken,
}

impl ParseError {
    /// The textual reason, as reported to the user.
    pub fn message(&self) -> (m: &'static str)
        ensures
            m@ == (match self {
                ParseError::ExitArgCount => "wrong number of arguments supplied to 'exit'"@,
                ParseError::CdArgCount => "wrong number of arguments supplied to 'cd'"@,
                ParseError::PwdArgCount => "wrong number of arguments supplied to 'pwd'"@,
                ParseError::MissingRedirectTarget => "expected argument"@,
                ParseError::UnexpectedToken => "expected argument or empty line"@,
            }),
    {
        match self {
            ParseError::ExitArgCount => "wrong number of arguments supplied to 'exit'",
            ParseError::CdArgCount => "wrong number of arguments supplied to 'cd'",
            ParseError::PwdArgCount => "wrong number of arguments supplied to 'pwd'",
            ParseError::MissingRedirectTarget => "expected argument",
            ParseError::UnexpectedToken => "expected argument or empty line",
        }
    }
}

/// A single command.
#[derive(Debug, PartialEq, Eq)]
pub enum Cmd {
    /// Leave the interpreter. No arguments.
    Exit,
    /// Change the working directory; without an argument, to the home directory.
    Cd(Option<Vec<u8>>),
    /// Print the working directory. No arguments.
    Pwd,
    /// An external program with its argument list.
    Other(Vec<u8>, Vec<Vec<u8>>),
    /// An empty command position.
    NoOp,
}

/// The mathematical shape of a command.
pub enum CmdView {
    Exit,
    Cd(Option<Seq<u8>>),
    Pwd,
    Other(Seq<u8>, Seq<Seq<u8>>),
    NoOp,
}

impl View for Cmd {
    type V = CmdView;

    open spec fn view(&self) -> CmdView {
        match self {
            Cmd::Exit => CmdView::Exit,
            Cmd::Cd(None) => CmdView::Cd(None),
            Cmd::Cd(Some(p)) => CmdView::Cd(Some(p@)),
            Cmd::Pwd => CmdView::Pwd,
            Cmd::Other(name, args) => CmdView::Other(name@, args.deep_view()),
            Cmd::NoOp => CmdView::NoOp,
        }
    }
}

/// A command together with at most one redirection of its output.
#[derive(Debug, PartialEq, Eq)]
pub enum Combinator {
    /// The command's output goes to the ambient sink.
    Identity(Cmd),
    /// `cmd > path`: the output replaces the file's content.
    Redirect(Cmd, Vec<u8>),
    /// `cmd >> path`: the output is appended to the file.
    RedirectAppend(Cmd, Vec<u8>),
    /// `cmd >+ path`: the output is inserted ahead of the file's content.
    RedirectInsert(Cmd, Vec<u8>),
}

/// The mathematical shape of a combinator.
pub enum CombinatorView {
    Identity(CmdView),
    Redirect(CmdView, Seq<u8>),
    RedirectAppend(CmdView, Seq<u8>),
    RedirectInsert(CmdView, Seq<u8>),
}

impl View for Combinator {
    type V = CombinatorView;

    open spec fn view(&self) -> CombinatorView {
        match self {
            Combinator::Identity(c) => CombinatorView::Identity(c@),
            Combinator::Redirect(c, p) => CombinatorView::Redirect(c@, p@),
            Combinator::RedirectAppend(c, p) => CombinatorView::RedirectAppend(c@, p@),
            Combinator::RedirectInsert(c, p) => CombinatorView::RedirectInsert(c@, p@),
        }
    }
}

/// A right-nested sequence of combinators joined by `;`.
#[derive(Debug, PartialEq, Eq)]
pub enum Expr {
    /// The empty line.
    NoOp,
    /// A combinator followed by the rest of the line.
    Sequence(Combinator, Box<Expr>),
}

/// The mathematical shape of an expression.
pub enum ExprView {
    NoOp,
    Sequence(CombinatorView, Box<ExprView>),
}

impl View for Expr {
    type V = ExprView;

    open spec fn view(&self) -> ExprView
        decreases self,
    {
        match self {
            Expr::NoOp => ExprView::NoOp,
            Expr::Sequence(c, rest) => ExprView::Sequence(c@, Box::new((**rest)@)),
        }
    }
}

/// The bytes of the name `exit`.
pub open spec fn kw_exit() -> Seq<u8> {
    seq![101u8, 120u8, 105u8, 116u8]
}

/// The bytes of the name `cd`.
pub open spec fn kw_cd() -> Seq<u8> {
    seq![99u8, 100u8]
}

/// The bytes of the name `pwd`.
pub open spec fn kw_pwd() -> Seq<u8> {
    seq![112u8, 119u8, 100u8]
}

/// The operator `>`.
pub open spec fn op_redirect() -> Seq<u8> {
    seq![BYTE_GT]
}

/// The operator `>>`.
pub open spec fn op_append() -> Seq<u8> {
    seq![BYTE_GT, BYTE_GT]
}

/// The operator `>+`.
pub open spec fn op_insert() -> Seq<u8> {
    seq![BYTE_GT, BYTE_PLUS]
}

/// The operator `;`.
pub open spec fn op_seq() -> Seq<u8> {
    seq![BYTE_SEMI]
}

/// The longest prefix of argument tokens, as their bytes, and the tokens after it.
pub open spec fn take_args(toks: Seq<TokenView>) -> (Seq<Seq<u8>>, Seq<TokenView>)
    decreases toks.len(),
{
    if toks.len() > 0 && (toks[0] is Arg) {
        let (args, rest) = take_args(toks.drop_first());
        (seq![toks[0].bytes()] + args, rest)
    } else {
        (Seq::empty(), toks)
    }
}

pub proof fn lemma_take_args_len(toks: Seq<TokenView>)
    ensures
        take_args(toks).1.len() <= toks.len(),
    decreases toks.len(),
{
    if toks.len() > 0 && (toks[0] is Arg) {
        lemma_take_args_len(toks.drop_first());
    }
}

/// Which command a leading name with the given arguments denotes, or why the
/// argument count is wrong. A reserved name is recognised only here, in
/// leading position.
pub open spec fn classify(name: Seq<u8>, args: Seq<Seq<u8>>) -> Result<CmdView, ParseError> {
    if name == kw_exit() {
        if args.len() == 0 {
            Ok(CmdView::Exit)
        } else {
            Err(ParseError::ExitArgCount)
        }
    } else if name == kw_cd() {
        if args.len() == 0 {
            Ok(CmdView::Cd(None))
        } else if args.len() == 1 {
            Ok(CmdView::Cd(Some(args[0])))
        } else {
            Err(ParseError::CdArgCount)
        }
    } else if name == kw_pwd() {
        if args.len() == 0 {
            Ok(CmdView::Pwd)
        } else {
            Err(ParseError::PwdArgCount)
        }
    } else {
        Ok(CmdView::Other(name, args))
    }
}

/// Parse one command: an empty stream is `NoOp`; a leading argument token is
/// the name, every argument token after it an argument; a leading operator is
/// an error.
pub open spec fn parse_cmd(toks: Seq<TokenView>) -> Result<(CmdView, Seq<TokenView>), ParseError> {
    if toks.len() == 0 {
        Ok((CmdView::NoOp, toks))
    } else if toks[0] is Op {
        Err(ParseError::UnexpectedToken)
    } else {
        let (args, rest) = take_args(toks.drop_first());
        match classify(toks[0].bytes(), args) {
            Ok(c) => Ok((c, rest)),
            Err(e) => Err(e),
        }
    }
}

/// True of the three redirection operators.
pub open spec fn is_redirect_op(o: Seq<u8>) -> bool {
    o == op_redirect() || o == op_append() || o == op_insert()
}

/// The combinator a redirection operator builds.
pub open spec fn mk_redirect(o: Seq<u8>, cmd: CmdView, path: Seq<u8>) -> CombinatorView {
    if o == op_append() {
        CombinatorView::RedirectAppend(cmd, path)
    } else if o == op_insert() {
        CombinatorView::RedirectInsert(cmd, path)
    } else {
        CombinatorView::Redirect(cmd, path)
    }
}

/// Parse a combinator: a command, then at most one redirection, whose operator
/// must be followed by a target path.
pub open spec fn parse_combinator(toks: Seq<TokenView>) -> Result<
    (CombinatorView, Seq<TokenView>),
    ParseError,
> {
    match parse_cmd(toks) {
        Err(e) => Err(e),
        Ok((cmd, rest)) => {
            if rest.len() > 0 && rest[0] is Op && is_redirect_op(rest[0].bytes()) {
                if rest.len() > 1 && rest[1] is Arg {
                    Ok((mk_redirect(rest[0].bytes(), cmd, rest[1].bytes()), rest.skip(2)))
                } else {
                    Err(ParseError::MissingRedirectTarget)
                }
            } else {
                Ok((CombinatorView::Identity(cmd), rest))
            }
        },
    }
}

pub proof fn lemma_parse_combinator_len(toks: Seq<TokenView>)
    ensures
        parse_combinator(toks) matches Ok(p) ==> p.1.len() <= toks.len(),
        toks.len() > 0 ==> (parse_combinator(toks) matches Ok(p) ==> p.1.len() < toks.len()),
{
    lemma_take_args_len(toks.drop_first());
}

/// Parse an expression: combinators joined by `;`. An empty stream is `NoOp`;
/// a combinator not followed by `;` ends the expression, leaving any further
/// tokens unconsumed.
pub open spec fn parse_expr(toks: Seq<TokenView>) -> Result<
    (ExprView, Seq<TokenView>),
    ParseError,
>
    decreases toks.len(),
{
    if toks.len() == 0 {
        Ok((ExprView::NoOp, toks))
    } else {
        match parse_combinator(toks) {
            Err(e) => Err(e),
            Ok((comb, rest)) => {
                if rest.len() > 0 && rest[0] == TokenView::Op(op_seq()) {
                    proof {
                        lemma_parse_combinator_len(toks);
                    }
                    match parse_expr(rest.drop_first()) {
                        Err(e) => Err(e),
                        Ok((e, rest2)) => Ok((ExprView::Sequence(comb, Box::new(e)), rest2)),
                    }
                } else {
                    Ok((ExprView::Sequence(comb, Box::new(ExprView::NoOp)), rest))
                }
            },
        }
    }
}

fn is_kw_exit(name: &Vec<u8>) -> (r: bool)
    ensures
        r == (name@ == kw_exit()),
{
    let r = name.len() == 4 && name[0] == 101 && name[1] == 120 && name[2] == 105 && name[3] == 116;
    proof {
        if r {
            assert(name@ =~= kw_exit());
        }
    }
    r
}

fn is_kw_cd(name: &Vec<u8>) -> (r: bool)
    ensures
        r == (name@ == kw_cd()),
{
    let r = name.len() == 2 && name[0] == 99 && name[1] == 100;
    proof {
        if r {
            assert(name@ =~= kw_cd());
        }
    }
    r
}

fn is_kw_pwd(name: &Vec<u8>) -> (r: bool)
    ensures
        r == (name@ == kw_pwd()),
{
    let r = name.len() == 3 && name[0] == 112 && name[1] == 119 && name[2] == 100;
    proof {
        if r {
            assert(name@ =~= kw_pwd());
        }
    }
    r
}

/// The three ways a combinator can route its command's output to a file.
#[derive(Clone, Copy)]
enum RedirectKind {
    Truncate,
    Append,
    Insert,
}

fn redirect_kind(tok: &Token) -> (k: Option<RedirectKind>)
    ensures
        match k {
            None => !(tok@ is Op && is_redirect_op(tok@.bytes())),
            Some(rk) => tok@ is Op && (match rk {
                RedirectKind::Truncate => tok@.bytes() == op_redirect(),
                RedirectKind::Append => tok@.bytes() == op_append(),
                RedirectKind::Insert => tok@.bytes() == op_insert(),
            }),
        },
{
    match tok {
        Token::Op(o) => {
            if o.len() == 1 && o[0] == BYTE_GT {
                proof {
                    assert(o@ =~= op_redirect());
                }
                Some(RedirectKind::Truncate)
            } else if o.len() == 2 && o[0] == BYTE_GT && o[1] == BYTE_GT {
                proof {
                    assert(o@ =~= op_append());
                }
                Some(RedirectKind::Append)
            } else if o.len() == 2 && o[0] == BYTE_GT && o[1] == BYTE_PLUS {
                proof {
                    assert(o@ =~= op_insert());
                }
                Some(RedirectKind::Insert)
            } else {
                None
            }
        },
        _ => None,
    }
}

fn is_semi(tok: &Token) -> (r: bool)
    ensures
        r == (tok@ == TokenView::Op(op_seq())),
{
    match tok {
        Token::Op(o) => {
            let r = o.len() == 1 && o[0] == BYTE_SEMI;
            proof {
                if r {
                    assert(o@ =~= op_seq());
                }
            }
            r
        },
        _ => false,
    }
}

/// A value parsed from the front of a token stream by recursive descent.
pub trait FromLexer: Sized + View {
    /// The token-level grammar this type is parsed by.
    spec fn parse_model(toks: Seq<TokenView>) -> Result<(Self::V, Seq<TokenView>), ParseError>;

    /// Parse one value from the front of the lexer's token stream, returning
    /// the lexer positioned after the tokens the value used.
    fn from_lexer(lexer: Lexer) -> (r: Result<(Self, Lexer), ParseError>)
        requires
            lexer.wf(),
        ensures
            match r {
                Ok(p) => p.1.wf() && p.1.remaining().len() <= lexer.remaining().len()
                    && Self::parse_model(lexer.remaining()) == Ok::<
                    (Self::V, Seq<TokenView>),
                    ParseError,
                >((p.0@, p.1.remaining())),
                Err(e) => Self::parse_model(lexer.remaining()) == Err::<
                    (Self::V, Seq<TokenView>),
                    ParseError,
                >(e),
            },
    ;
}

/// Pull every argument token waiting at the front of the stream into `args`.
fn collect_args(lexer: &mut Lexer, args: &mut Vec<Vec<u8>>)
    requires
        old(lexer).wf(),
    ensures
        final(lexer).wf(),
        final(args).deep_view() == old(args).deep_view() + take_args(old(lexer).remaining()).0,
        final(lexer).remaining() == take_args(old(lexer).remaining()).1,
    decreases old(lexer).remaining().len(),
{
    let ghost toks = old(lexer).remaining();
    let t = lexer.next();
    match t {
        None => {
            proof {
                assert(take_args(toks).1 =~= lexer.remaining());
                assert(old(args).deep_view() + take_args(toks).0 =~~= old(args).deep_view());
            }
        },
        Some(tok) => {
            if tok.is_arg() {
                let ghost args0 = args.deep_view();
                args.push(tok.unwrap());
                proof {
                    assert(args.deep_view() =~~= args0.push(tok@.bytes()));
                }
                collect_args(lexer, args);
                proof {
                    let (tail_args, rest) = take_args(toks.drop_first());
                    assert(take_args(toks).0 == seq![tok@.bytes()] + tail_args);
                    assert(old(args).deep_view() + (seq![tok@.bytes()] + tail_args) =~~= (
                    args0.push(tok@.bytes())) + tail_args);
                }
            } else {
                lexer.unread(tok);
                proof {
                    assert(seq![tok@] + toks.drop_first() =~= toks);
                    assert(take_args(toks).1 == toks);
                    assert(old(args).deep_view() + take_args(toks).0 =~~= old(args).deep_view());
                }
            }
        },
    }
}

impl Cmd {
    /// Build the command a leading name with the given arguments denotes,
    /// checking the arity of the reserved names.
    pub fn from_parts(name: Vec<u8>, args: Vec<Vec<u8>>) -> (r: Result<Cmd, ParseError>)
        ensures
            match r {
                Ok(c) => classify(name@, args.deep_view()) == Ok::<CmdView, ParseError>(c@),
                Err(e) => classify(name@, args.deep_view()) == Err::<CmdView, ParseError>(e),
            },
    {
        if is_kw_exit(&name) {
            if args.len() == 0 {
                Ok(Cmd::Exit)
            } else {
                Err(ParseError::ExitArgCount)
            }
        } else if is_kw_cd(&name) {
            if args.len() == 0 {
                Ok(Cmd::Cd(None))
            } else if args.len() == 1 {
                let ghost dv = args.deep_view();
                let mut args = args;
                let p = args.remove(0);
                proof {
                    assert(p@ =~~= dv[0]);
                }
                Ok(Cmd::Cd(Some(p)))
            } else {
                Err(ParseError::CdArgCount)
            }
        } else if is_kw_pwd(&name) {
            if args.len() == 0 {
                Ok(Cmd::Pwd)
            } else {
                Err(ParseError::PwdArgCount)
            }
        } else {
            Ok(Cmd::Other(name, args))
        }
    }
}

impl FromLexer for Cmd {
    open spec fn parse_model(toks: Seq<TokenView>) -> Result<(CmdView, Seq<TokenView>), ParseError> {
        parse_cmd(toks)
    }

    fn from_lexer(lexer: Lexer) -> (r: Result<(Cmd, Lexer), ParseError>) {
        let ghost toks = lexer.remaining();
        let mut lexer = lexer;
        let t = lexer.next();
        match t {
            None => {
                proof {
                    assert(lexer.remaining() =~= toks);
                }
                Ok((Cmd::NoOp, lexer))
            },
            Some(tok) => {
                if tok.is_arg() {
                    let name = tok.unwrap();
                    let mut args: Vec<Vec<u8>> = Vec::new();
                    collect_args(&mut lexer, &mut args);
                    proof {
                        lemma_take_args_len(toks.drop_first());
                        assert(args.deep_view() =~~= take_args(toks.drop_first()).0);
                    }
                    match Cmd::from_parts(name, args) {
                        Ok(c) => Ok((c, lexer)),
                        Err(e) => Err(e),
                    }
                } else {
                    Err(ParseError::UnexpectedToken)
                }
            },
        }
    }
}

impl FromLexer for Combinator {
    open spec fn parse_model(toks: Seq<TokenView>) -> Result<
        (CombinatorView, Seq<TokenView>),
        ParseError,
    > {
        parse_combinator(toks)
    }

    fn from_lexer(lexer: Lexer) -> (r: Result<(Combinator, Lexer), ParseError>) {
        let ghost toks = lexer.remaining();
        let (cmd, mut lexer) = match Cmd::from_lexer(lexer) {
            Ok(p) => p,
            Err(e) => return Err(e),
        };
        let ghost rest = lexer.remaining();
        let t = lexer.next();
        match t {
            None => {
                proof {
                    assert(lexer.remaining() =~= rest);
                }
                Ok((Combinator::Identity(cmd), lexer))
            },
            Some(tok) => {
                match redirect_kind(&tok) {
                    None => {
                        lexer.unread(tok);
                        proof {
                            assert(seq![tok@] + rest.drop_first() =~= rest);
                        }
                        Ok((Combinator::Identity(cmd), lexer))
                    },
                    Some(k) => {
                        let t2 = lexer.next();
                        match t2 {
                            Some(tok2) => {
                                if tok2.is_arg() {
                                    let path = tok2.unwrap();
                                    proof {
                                        assert(rest.drop_first().drop_first() =~= rest.skip(2));
                                    }
                                    let c = match k {
                                        RedirectKind::Truncate => Combinator::Redirect(cmd, path),
                                        RedirectKind::Append => Combinator::RedirectAppend(
                                            cmd,
                                            path,
                                        ),
                                        RedirectKind::Insert => Combinator::RedirectInsert(
                                            cmd,
                                            path,
                                        ),
                                    };
                                    Ok((c, lexer))
                                } else {
                                    Err(ParseError::MissingRedirectTarget)
                                }
                            },
                            None => Err(ParseError::MissingRedirectTarget),
                        }
                    },
                }
            },
        }
    }
}

impl FromLexer for Expr {
    open spec fn parse_model(toks: Seq<TokenView>) -> Result<
        (ExprView, Seq<TokenView>),
        ParseError,
    > {
        parse_expr(toks)
    }

    fn from_lexer(lexer: Lexer) -> (r: Result<(Expr, Lexer), ParseError>)
        decreases lexer.remaining().len(),
    {
        let ghost toks = lexer.remaining();
        let mut lexer = lexer;
        let t = lexer.next();
        match t {
            None => {
                proof {
                    assert(lexer.remaining() =~= toks);
                }
                return Ok((Expr::NoOp, lexer));
            },
            Some(tok) => {
                lexer.unread(tok);
                proof {
                    assert(seq![tok@] + toks.drop_first() =~= toks);
                }
            },
        }
        let (comb, mut lexer) = match Combinator::from_lexer(lexer) {
            Ok(p) => p,
            Err(e) => return Err(e),
        };
        let ghost rest = lexer.remaining();
        let t1 = lexer.next();
        match t1 {
            Some(tok) => {
                if is_semi(&tok) {
                    proof {
                        lemma_parse_combinator_len(toks);
                    }
                    match Expr::from_lexer(lexer) {
                        Ok(p) => Ok((Expr::Sequence(comb, Box::new(p.0)), p.1)),
                        Err(e) => Err(e),
                    }
                } else {
                    lexer.unread(tok);
                    proof {
                        assert(seq![tok@] + rest.drop_first() =~= rest);
                        assert((Expr::NoOp)@ == ExprView::NoOp);
                    }
                    Ok((Expr::Sequence(comb, Box::new(Expr::NoOp)), lexer))
                }
            },
            None => {
                proof {
                    assert(lexer.remaining() =~= rest);
                    assert((Expr::NoOp)@ == ExprView::NoOp);
                }
                Ok((Expr::Sequence(comb, Box::new(Expr::NoOp)), lexer))
            },
        }
    }
}

impl Expr {
    /// Parse a whole line of tokens into an expression. Tokens left after a
    /// combinator that is not followed by `;` are discarded.
    pub fn parse(lexer: Lexer) -> (r: Result<Expr, ParseError>)
        requires
            lexer.wf(),
        ensures
            match r {
                Ok(e) => ({
                    let p = parse_expr(lexer.remaining());
                    p is Ok && p->Ok_0.0 == e@
                }),
                Err(er) => parse_expr(lexer.remaining()) == Err::<
                    (ExprView, Seq<TokenView>),
                    ParseError,
                >(er),
            },
    {
        match Expr::from_lexer(lexer) {
            Ok(p) => Ok(p.0),
            Err(e) => Err(e),
        }
    }
}

} // verus!
