//! Evaluator: walks an expression tree and carries out its commands against a
//! shell environment.
//!
//! The environment holds everything evaluation can observe or change: the
//! working directory, the home directory, the files, the ambient output sink,
//! and the process launcher, modelled by a queue of outcomes for the external
//! commands that are launched and a log of what was launched.

use vstd::prelude::*;

use crate::ast::{Cmd, CmdView, Combinator, CombinatorView, Expr, ExprView};

verus! {

/// A file: its path and its content.
#[derive(Debug, PartialEq, Eq)]
pub struct FileEntry {
    pub path: Vec<u8>,
    pub data: Vec<u8>,
}

/// The mathematical shape of a file.
pub struct FileView {
    pub path: Seq<u8>,
    pub data: Seq<u8>,
}

impl View for FileEntry {
    type V = FileView;

    open spec fn view(&self) -> FileView {
        FileView { path: self.path@, data: self.data@ }
    }
}

/// What the process launcher does with one launched command: hand back the
/// command's captured standard output, or fail to run it.
#[derive(Debug, PartialEq, Eq)]
pub enum LaunchOutcome {
    Captured(Vec<u8>),
    Failed,
}

/// The mathematical shape of a launch outcome.
pub enum LaunchOutcomeView {
    Captured(Seq<u8>),
    Failed,
}

impl View for LaunchOutcome {
    type V = LaunchOutcomeView;

    open spec fn view(&self) -> LaunchOutcomeView {
        match self {
            LaunchOutcome::Captured(b) => LaunchOutcomeView::Captured(b@),
            LaunchOutcome::Failed => LaunchOutcomeView::Failed,
        }
    }
}

/// One request made to the process launcher: a program name and its arguments.
#[derive(Debug, PartialEq, Eq)]
pub struct LaunchRequest {
    pub program: Vec<u8>,
    pub args: Vec<Vec<u8>>,
}

/// The mathematical shape of a launch request.
pub struct LaunchRequestView {
    pub program: Seq<u8>,
    pub args: Seq<Seq<u8>>,
}

impl View for LaunchRequest {
    type V = LaunchRequestView;

    open spec fn view(&self) -> LaunchRequestView {
        LaunchRequestView { program: self.program@, args: self.args.deep_view() }
    }
}

/// The shell's world: working directory, home directory, files, the ambient
/// output sink, and the process launcher's planned outcomes and request log.
#[derive(Debug, PartialEq, Eq)]
pub struct ShellEnv {
    pub cwd: Vec<u8>,
    pub home: Option<Vec<u8>>,
    pub files: Vec<FileEntry>,
    pub ambient: Vec<u8>,
    pub outcomes: Vec<LaunchOutcome>,
    pub launched: Vec<LaunchRequest>,
}

/// The mathematical shape of the shell's world.
pub struct ShellEnvView {
    pub cwd: Seq<u8>,
    pub home: Option<Seq<u8>>,
    pub files: Seq<FileView>,
    pub ambient: Seq<u8>,
    pub outcomes: Seq<LaunchOutcomeView>,
    pub launched: Seq<LaunchRequestView>,
}

impl View for ShellEnv {
    type V = ShellEnvView;

    open spec fn view(&self) -> ShellEnvView {
        ShellEnvView {
            cwd: self.cwd@,
            home: match self.home {
                Some(h) => Some(h@),
                None => None,
            },
            files: Seq::new(self.files@.len(), |i: int| self.files@[i]@),
            ambient: self.ambient@,
            outcomes: Seq::new(self.outcomes@.len(), |i: int| self.outcomes@[i]@),
            launched: Seq::new(self.launched@.len(), |i: int| self.launched@[i]@),
        }
    }
}

/// The content of the first file at `path`, if one is there.
pub open spec fn lookup(files: Seq<FileView>, path: Seq<u8>) -> Option<Seq<u8>>
    decreases files.len(),
{
    if files.len() == 0 {
        None
    } else if files[0].path == path {
        Some(files[0].data)
    } else {
        lookup(files.drop_first(), path)
    }
}

/// The files after the file at `path` is given the content `data`, created at
/// the end when it was absent.
pub open spec fn store(files: Seq<FileView>, path: Seq<u8>, data: Seq<u8>) -> Seq<FileView>
    decreases files.len(),
{
    if files.len() == 0 {
        seq![FileView { path, data }]
    } else if files[0].path == path {
        seq![FileView { path, data }] + files.drop_first()
    } else {
        seq![files[0]] + store(files.drop_first(), path, data)
    }
}

proof fn lemma_lookup_at(files: Seq<FileView>, path: Seq<u8>, i: int)
    requires
        0 <= i < files.len(),
        files[i].path == path,
        forall|j: int| 0 <= j < i ==> files[j].path != path,
    ensures
        lookup(files, path) == Some(files[i].data),
    decreases i,
{
    if i > 0 {
        assert forall|j: int| 0 <= j < i - 1 implies files.drop_first()[j].path != path by {
            assert(files.drop_first()[j] == files[j + 1]);
        }
        assert(files.drop_first()[i - 1] == files[i]);
        lemma_lookup_at(files.drop_first(), path, i - 1);
    }
}

proof fn lemma_lookup_absent(files: Seq<FileView>, path: Seq<u8>)
    requires
        forall|j: int| 0 <= j < files.len() ==> files[j].path != path,
    ensures
        lookup(files, path) is None,
    decreases files.len(),
{
    if files.len() > 0 {
        assert forall|j: int| 0 <= j < files.drop_first().len() implies files.drop_first()[j].path
            != path by {
            assert(files.drop_first()[j] == files[j + 1]);
        }
        lemma_lookup_absent(files.drop_first(), path);
    }
}

proof fn lemma_store_at(files: Seq<FileView>, path: Seq<u8>, data: Seq<u8>, i: int)
    requires
        0 <= i < files.len(),
        files[i].path == path,
        forall|j: int| 0 <= j < i ==> files[j].path != path,
    ensures
        store(files, path, data) == files.update(i, FileView { path, data }),
    decreases i,
{
    if i == 0 {
        assert(seq![FileView { path, data }] + files.drop_first() =~= files.update(
            0,
            FileView { path, data },
        ));
    } else {
        assert forall|j: int| 0 <= j < i - 1 implies files.drop_first()[j].path != path by {
            assert(files.drop_first()[j] == files[j + 1]);
        }
        assert(files.drop_first()[i - 1] == files[i]);
        lemma_store_at(files.drop_first(), path, data, i - 1);
        assert(seq![files[0]] + files.drop_first().update(i - 1, FileView { path, data }) =~= files
            .update(i, FileView { path, data }));
    }
}

proof fn lemma_store_absent(files: Seq<FileView>, path: Seq<u8>, data: Seq<u8>)
    requires
        forall|j: int| 0 <= j < files.len() ==> files[j].path != path,
    ensures
        store(files, path, data) == files.push(FileView { path, data }),
    decreases files.len(),
{
    if files.len() == 0 {
        assert(seq![FileView { path, data }] =~= files.push(FileView { path, data }));
    } else {
        assert forall|j: int| 0 <= j < files.drop_first().len() implies files.drop_first()[j].path
            != path by {
            assert(files.drop_first()[j] == files[j + 1]);
        }
        lemma_store_absent(files.drop_first(), path, data);
        assert(seq![files[0]] + files.drop_first().push(FileView { path, data }) =~= files.push(
            FileView { path, data },
        ));
    }
}

/// What evaluating one node ends in: go on with the next line, or leave the
/// interpreter.
#[derive(Debug, PartialEq, Eq, Structural, Clone, Copy)]
pub enum ResultKind {
    Exit,
    Continue,
}

/// A failing operation of the environment, surfaced to the caller.
#[derive(Debug, PartialEq, Eq, Structural, Clone, Copy)]
pub enum RuntimeError {
    /// `cd` without an argument found no home directory.
    HomeNotSet,
    /// The launcher could not run an external command.
    LaunchFailed,
    /// An insert-redirect named a file that does not exist.
    NoSuchFile,
}

impl RuntimeError {
    /// The textual reason, as reported to the user.
    pub fn message(&self) -> (m: &'static str)
        ensures
            m@ == (match self {
                RuntimeError::HomeNotSet => "could not locate home directory"@,
                RuntimeError::LaunchFailed => "could not run the command"@,
                RuntimeError::NoSuchFile => "no such file or directory"@,
            }),
    {
        match self {
            RuntimeError::HomeNotSet => "could not locate home directory",
            RuntimeError::LaunchFailed => "could not run the command",
            RuntimeError::NoSuchFile => "no such file or directory",
        }
    }
}

/// What evaluation hands back: go on, leave, or a runtime error.
pub type CommandResult = Result<ResultKind, RuntimeError>;

/// The effect of one command on the world: the world after it, the bytes it
/// writes to its sink, and its result. `Other` asks the launcher to run the
/// program with its arguments and takes the next planned outcome.
pub open spec fn run_cmd(c: CmdView, w: ShellEnvView) -> (ShellEnvView, Seq<u8>, CommandResult) {
    match c {
        CmdView::NoOp => (w, Seq::empty(), Ok(ResultKind::Continue)),
        CmdView::Exit => (w, Seq::empty(), Ok(ResultKind::Exit)),
        CmdView::Pwd => (w, w.cwd + seq![10u8], Ok(ResultKind::Continue)),
        CmdView::Cd(Some(p)) => (ShellEnvView { cwd: p, ..w }, Seq::empty(), Ok(ResultKind::Continue)),
        CmdView::Cd(None) => match w.home {
            Some(h) => (ShellEnvView { cwd: h, ..w }, Seq::empty(), Ok(ResultKind::Continue)),
            None => (w, Seq::empty(), Err(RuntimeError::HomeNotSet)),
        },
        CmdView::Other(name, args) => {
            let w1 = ShellEnvView {
                launched: w.launched.push(LaunchRequestView { program: name, args }),
                ..w
            };
            if w1.outcomes.len() == 0 {
                (w1, Seq::empty(), Err(RuntimeError::LaunchFailed))
            } else {
                let rest = ShellEnvView { outcomes: w1.outcomes.drop_first(), ..w1 };
                match w1.outcomes[0] {
                    LaunchOutcomeView::Captured(b) => (rest, b, Ok(ResultKind::Continue)),
                    LaunchOutcomeView::Failed => (
                        rest,
                        Seq::empty(),
                        Err(RuntimeError::LaunchFailed),
                    ),
                }
            }
        },
    }
}

/// A command touches only the working directory and the launcher's queue and
/// log: the files, the ambient sink and the home directory stay as they were.
pub proof fn lemma_run_cmd_frame(c: CmdView, w: ShellEnvView)
    ensures
        run_cmd(c, w).0.files == w.files,
        run_cmd(c, w).0.ambient == w.ambient,
        run_cmd(c, w).0.home == w.home,
{
}

/// The effect of one combinator on the world: its command runs, and the bytes
/// the command writes go to the ambient sink or to the named file.
pub open spec fn run_combinator(c: CombinatorView, w: ShellEnvView) -> (
    ShellEnvView,
    CommandResult,
) {
    match c {
        CombinatorView::Identity(cmd) => {
            let (w1, out, res) = run_cmd(cmd, w);
            (ShellEnvView { ambient: w1.ambient + out, ..w1 }, res)
        },
        CombinatorView::Redirect(cmd, path) => {
            // The file is created or truncated before the command runs, so it
            // holds exactly the command's output even when the command fails.
            let (w1, out, res) = run_cmd(cmd, w);
            (ShellEnvView { files: store(w1.files, path, out), ..w1 }, res)
        },
        CombinatorView::RedirectAppend(cmd, path) => {
            let (w1, out, res) = run_cmd(cmd, w);
            let prev = match lookup(w1.files, path) {
                Some(d) => d,
                None => Seq::empty(),
            };
            (ShellEnvView { files: store(w1.files, path, prev + out), ..w1 }, res)
        },
        CombinatorView::RedirectInsert(cmd, path) => {
            // The file must already exist; the command's output is inserted
            // ahead of its content, whether or not the command succeeded.
            match lookup(w.files, path) {
                None => (w, Err(RuntimeError::NoSuchFile)),
                Some(prev) => {
                    let (w1, out, res) = run_cmd(cmd, w);
                    (ShellEnvView { files: store(w1.files, path, out + prev), ..w1 }, res)
                },
            }
        },
    }
}

/// The effect of an expression on the world: its combinators run left to
/// right; `Exit` and errors stop the line short.
pub open spec fn run_expr(e: ExprView, w: ShellEnvView) -> (ShellEnvView, CommandResult)
    decreases e,
{
    match e {
        ExprView::NoOp => (w, Ok(ResultKind::Continue)),
        ExprView::Sequence(c, rest) => {
            let (w1, r) = run_combinator(c, w);
            if r == Ok::<ResultKind, RuntimeError>(ResultKind::Continue) {
                run_expr(*rest, w1)
            } else {
                (w1, r)
            }
        },
    }
}

/// A combinator leaves the home directory as it was.
pub proof fn lemma_run_combinator_home(c: CombinatorView, w: ShellEnvView)
    ensures
        run_combinator(c, w).0.home == w.home,
{
    match c {
        CombinatorView::Identity(cmd) => lemma_run_cmd_frame(cmd, w),
        CombinatorView::Redirect(cmd, _) => lemma_run_cmd_frame(cmd, w),
        CombinatorView::RedirectAppend(cmd, _) => lemma_run_cmd_frame(cmd, w),
        CombinatorView::RedirectInsert(cmd, _) => lemma_run_cmd_frame(cmd, w),
    }
}

/// Law: no line changes the home directory. Only the working directory, the
/// files, the sinks and the launcher's state outlive a line's evaluation
/// differently from how they entered it.
pub proof fn lemma_run_expr_home(e: ExprView, w: ShellEnvView)
    ensures
        run_expr(e, w).0.home == w.home,
    decreases e,
{
    match e {
        ExprView::NoOp => {},
        ExprView::Sequence(c, rest) => {
            lemma_run_combinator_home(c, w);
            lemma_run_expr_home(*rest, run_combinator(c, w).0);
        },
    }
}

fn bytes_eq(a: &Vec<u8>, b: &Vec<u8>) -> (r: bool)
    ensures
        r == (a@ == b@),
{
    if a.len() != b.len() {
        return false;
    }
    let mut i: usize = 0;
    while i < a.len()
        invariant
            i <= a.len(),
            a@.len() == b@.len(),
            forall|j: int| 0 <= j < i ==> a@[j] == b@[j],
        decreases a.len() - i,
    {
        if a[i] != b[i] {
            return false;
        }
        i = i + 1;
    }
    proof {
        assert(a@ =~= b@);
    }
    true
}

fn copy_bytes(v: &Vec<u8>) -> (r: Vec<u8>)
    ensures
        r@ == v@,
{
    let mut r: Vec<u8> = Vec::new();
    let mut i: usize = 0;
    while i < v.len()
        invariant
            i <= v.len(),
            r@ == v@.subrange(0, i as int),
        decreases v.len() - i,
    {
        r.push(v[i]);
        i = i + 1;
        proof {
            assert(r@ =~= v@.subrange(0, i as int));
        }
    }
    proof {
        assert(v@.subrange(0, v@.len() as int) =~= v@);
    }
    r
}

impl ShellEnv {
    /// A world with the given working directory and home directory, no files,
    /// nothing written, and nothing planned for the launcher.
    pub fn new(cwd: Vec<u8>, home: Option<Vec<u8>>) -> (env: ShellEnv)
        ensures
            env@.cwd == cwd@,
            env@.home == (match home {
                Some(h) => Some(h@),
                None => None::<Seq<u8>>,
            }),
            env@.files == Seq::<FileView>::empty(),
            env@.ambient == Seq::<u8>::empty(),
            env@.outcomes == Seq::<LaunchOutcomeView>::empty(),
            env@.launched == Seq::<LaunchRequestView>::empty(),
    {
        let env = ShellEnv {
            cwd,
            home,
            files: Vec::new(),
            ambient: Vec::new(),
            outcomes: Vec::new(),
            launched: Vec::new(),
        };
        proof {
            assert(env@.files =~= Seq::<FileView>::empty());
            assert(env@.outcomes =~= Seq::<LaunchOutcomeView>::empty());
            assert(env@.launched =~= Seq::<LaunchRequestView>::empty());
        }
        env
    }

    fn find_file(&self, path: &Vec<u8>) -> (idx: Option<usize>)
        ensures
            match idx {
                Some(i) => i < self@.files.len() && self@.files[i as int].path == path@ && (forall|
                    j: int,
                |
                    0 <= j < i ==> self@.files[j].path != path@),
                None => forall|j: int| 0 <= j < self@.files.len() ==> self@.files[j].path != path@,
            },
    {
        let mut i: usize = 0;
        while i < self.files.len()
            invariant
                i <= self@.files.len(),
                forall|j: int| 0 <= j < i ==> self@.files[j].path != path@,
            decreases self@.files.len() - i,
        {
            if bytes_eq(&self.files[i].path, path) {
                return Some(i);
            }
            i = i + 1;
        }
        None
    }

    /// The content of the file at `path`, if it exists.
    pub fn get_file(&self, path: &Vec<u8>) -> (r: Option<Vec<u8>>)
        ensures
            match r {
                Some(d) => lookup(self@.files, path@) == Some(d@),
                None => lookup(self@.files, path@) is None,
            },
    {
        match self.find_file(path) {
            Some(i) => {
                proof {
                    lemma_lookup_at(self@.files, path@, i as int);
                }
                Some(copy_bytes(&self.files[i].data))
            },
            None => {
                proof {
                    lemma_lookup_absent(self@.files, path@);
                }
                None
            },
        }
    }

    /// Give the file at `path` the content `data`, creating it if absent.
    pub fn set_file(&mut self, path: Vec<u8>, data: Vec<u8>)
        ensures
            final(self)@ == (ShellEnvView {
                files: store(old(self)@.files, path@, data@),
                ..old(self)@
            }),
    {
        let ghost w = self@;
        match self.find_file(&path) {
            Some(i) => {
                proof {
                    lemma_store_at(w.files, path@, data@, i as int);
                }
                self.files.remove(i);
                self.files.insert(i, FileEntry { path, data });
                proof {
                    assert(self@.files =~= w.files.update(
                        i as int,
                        FileView { path: path@, data: data@ },
                    ));
                }
            },
            None => {
                proof {
                    lemma_store_absent(w.files, path@, data@);
                }
                self.files.push(FileEntry { path, data });
                proof {
                    assert(self@.files =~= w.files.push(FileView { path: path@, data: data@ }));
                }
            },
        }
        proof {
            assert(self@.outcomes =~= w.outcomes);
            assert(self@.launched =~= w.launched);
        }
    }
}

/// An AST node that can be evaluated against a shell environment.
pub trait Runnable: Sized {
    /// The effect of running this node on the shell's world.
    spec fn run_model(self, w: ShellEnvView) -> (ShellEnvView, CommandResult);

    /// Run the node: carry its effect out on the environment.
    fn run(self, env: &mut ShellEnv) -> (r: CommandResult)
        ensures
            final(env)@ == self.run_model(old(env)@).0,
            r == self.run_model(old(env)@).1,
    ;
}

impl Cmd {
    /// Run one command, handing back the bytes it writes to its sink instead
    /// of writing them anywhere.
    pub fn run_collect(self, env: &mut ShellEnv) -> (r: (Vec<u8>, CommandResult))
        ensures
            final(env)@ == run_cmd(self@, old(env)@).0,
            r.0@ == run_cmd(self@, old(env)@).1,
            r.1 == run_cmd(self@, old(env)@).2,
    {
        let ghost w = env@;
        match self {
            Cmd::NoOp => (Vec::new(), Ok(ResultKind::Continue)),
            Cmd::Exit => (Vec::new(), Ok(ResultKind::Exit)),
            Cmd::Pwd => {
                let mut out = copy_bytes(&env.cwd);
                out.push(10);
                proof {
                    assert(out@ =~= w.cwd + seq![10u8]);
                }
                (out, Ok(ResultKind::Continue))
            },
            Cmd::Cd(Some(p)) => {
                env.cwd = p;
                (Vec::new(), Ok(ResultKind::Continue))
            },
            Cmd::Cd(None) => {
                match &env.home {
                    Some(h) => {
                        let h2 = copy_bytes(h);
                        env.cwd = h2;
                        (Vec::new(), Ok(ResultKind::Continue))
                    },
                    None => (Vec::new(), Err(RuntimeError::HomeNotSet)),
                }
            },
            Cmd::Other(name, args) => {
                env.launched.push(LaunchRequest { program: name, args });
                proof {
                    assert(env@.launched =~= w.launched.push(
                        LaunchRequestView { program: name@, args: args.deep_view() },
                    ));
                    assert(env@.files =~= w.files);
                    assert(env@.outcomes =~= w.outcomes);
                }
                if env.outcomes.len() == 0 {
                    (Vec::new(), Err(RuntimeError::LaunchFailed))
                } else {
                    let ghost w1 = env@;
                    let oc = env.outcomes.remove(0);
                    proof {
                        assert(env@.outcomes =~= w1.outcomes.drop_first());
                        assert(env@.files =~= w1.files);
                        assert(env@.launched =~= w1.launched);
                        assert(oc@ == w1.outcomes[0]);
                    }
                    match oc {
                        LaunchOutcome::Captured(b) => (b, Ok(ResultKind::Continue)),
                        LaunchOutcome::Failed => (Vec::new(), Err(RuntimeError::LaunchFailed)),
                    }
                }
            },
        }
    }
}

impl Runnable for Cmd {
    open spec fn run_model(self, w: ShellEnvView) -> (ShellEnvView, CommandResult) {
        let (w1, out, res) = run_cmd(self@, w);
        (ShellEnvView { ambient: w1.ambient + out, ..w1 }, res)
    }

    /// A bare command writes to the ambient sink.
    fn run(self, env: &mut ShellEnv) -> (r: CommandResult) {
        let ghost w = env@;
        let (mut out, res) = self.run_collect(env);
        env.ambient.append(&mut out);
        proof {
            assert(env@.files =~= run_cmd(self@, w).0.files);
            assert(env@.outcomes =~= run_cmd(self@, w).0.outcomes);
            assert(env@.launched =~= run_cmd(self@, w).0.launched);
        }
        res
    }
}

impl Runnable for Combinator {
    open spec fn run_model(self, w: ShellEnvView) -> (ShellEnvView, CommandResult) {
        run_combinator(self@, w)
    }

    /// Run the command, routing its output by the redirection mode.
    fn run(self, env: &mut ShellEnv) -> (r: CommandResult) {
        let ghost w = env@;
        match self {
            Combinator::Identity(cmd) => {
                let ghost cv = cmd@;
                let (mut out, res) = cmd.run_collect(env);
                env.ambient.append(&mut out);
                proof {
                    assert(env@.files =~= run_cmd(cv, w).0.files);
                    assert(env@.outcomes =~= run_cmd(cv, w).0.outcomes);
                    assert(env@.launched =~= run_cmd(cv, w).0.launched);
                }
                res
            },
            Combinator::Redirect(cmd, path) => {
                let ghost cv = cmd@;
                let (out, res) = cmd.run_collect(env);
                env.set_file(path, out);
                res
            },
            Combinator::RedirectAppend(cmd, path) => {
                let ghost cv = cmd@;
                let (mut out, res) = cmd.run_collect(env);
                let mut data = match env.get_file(&path) {
                    Some(d) => d,
                    None => Vec::new(),
                };
                proof {
                    lemma_run_cmd_frame(cv, w);
                }
                data.append(&mut out);
                env.set_file(path, data);
                res
            },
            Combinator::RedirectInsert(cmd, path) => {
                let ghost cv = cmd@;
                match env.get_file(&path) {
                    None => Err(RuntimeError::NoSuchFile),
                    Some(prev) => {
                        let mut prev = prev;
                        let (mut out, res) = cmd.run_collect(env);
                        proof {
                            lemma_run_cmd_frame(cv, w);
                        }
                        out.append(&mut prev);
                        env.set_file(path, out);
                        res
                    },
                }
            },
        }
    }
}

impl Runnable for Expr {
    open spec fn run_model(self, w: ShellEnvView) -> (ShellEnvView, CommandResult) {
        run_expr(self@, w)
    }

    /// Run the combinators left to right; `Exit` and errors stop the line.
    fn run(self, env: &mut ShellEnv) -> (r: CommandResult)
        decreases self,
    {
        match self {
            Expr::NoOp => Ok(ResultKind::Continue),
            Expr::Sequence(comb, rest) => {
                let r1 = comb.run(env);
                match r1 {
                    Ok(ResultKind::Continue) => (*rest).run(env),
                    other => other,
                }
            },
        }
    }
}

} // verus!
