//! The dispatcher: a shell state and a command line give the next state and
//! an action for the host to carry out. Builtins are decided here; what
//! needs the outside world (a directory listing, a change of directory, a
//! process) is handed out as an action and reported back.
use vstd::prelude::*;
use crate::builtins::{
    bad_format_message, bad_format_report, builtin_message, builtin_of, builtin_report,
    cd_failure_message, cd_failure_report, echo_line, echo_text, exit_status, exit_status_of,
    export_binding, extra_equals_message, lemma_split_unique, listing, listing_text,
    single_assignment, unknown_message, unknown_report, Builtin,
};
use crate::env::{bindings, keys_unique, EnvModel, EnvStore};
use crate::parse::{copy_texts, pair_texts, parse_line, texts, words, InvModel, Invocation};
use crate::resolve::{join_dir, listed, first_hit, resolve};
use crate::text::{has_char, contains_char};

verus! {

/// What the shell holds between lines: the environment store and the
/// working directory.
pub struct ShellModel {
    pub env: EnvModel,
    pub cwd: Seq<char>,
}

/// What the host is asked to do after a line.
#[derive(Clone, Debug, PartialEq, Eq)]
pub enum Action {
    /// Print this text on standard output.
    Print(String),
    /// End the shell with this status.
    Exit(i32),
    /// Enter this directory, then report through `Shell::entered`.
    ChangeDir(String),
    /// List these directories, then report through `lookup_report`.
    Lookup { name: String, dirs: Vec<String> },
    /// List these directories, find the program through `run_target`, and
    /// run it with these arguments and exactly this environment.
    Run { name: String, args: Vec<String>, env: Vec<(String, String)>, dirs: Vec<String> },
}

/// An action, over views.
pub enum ActionModel {
    Print(Seq<char>),
    Exit(int),
    ChangeDir(Seq<char>),
    Lookup { name: Seq<char>, dirs: Seq<Seq<char>> },
    Run {
        name: Seq<char>,
        args: Seq<Seq<char>>,
        env: Seq<(Seq<char>, Seq<char>)>,
        dirs: Seq<Seq<char>>,
    },
}

impl View for Action {
    type V = ActionModel;

    open spec fn view(&self) -> ActionModel {
        match self {
            Action::Print(t) => ActionModel::Print(t@),
            Action::Exit(c) => ActionModel::Exit(*c as int),
            Action::ChangeDir(d) => ActionModel::ChangeDir(d@),
            Action::Lookup { name, dirs } => ActionModel::Lookup { name: name@, dirs: texts(dirs@) },
            Action::Run { name, args, env, dirs } => ActionModel::Run {
                name: name@,
                args: texts(args@),
                env: pair_texts(env@),
                dirs: texts(dirs@),
            },
        }
    }
}

/// `export` is given one argument that holds exactly one `=`.
pub open spec fn exportable(args: Seq<Seq<char>>) -> bool {
    args.len() == 1 && exists|k: Seq<char>, v: Seq<char>| single_assignment(args[0], k, v)
}

/// The binding that an exportable argument asks for.
pub open spec fn export_pair(t: Seq<char>) -> (Seq<char>, Seq<char>) {
    choose|k: Seq<char>, v: Seq<char>| single_assignment(t, k, v)
}

/// The effective environment of an invocation: the store with its
/// temporary assignments set over it.
pub open spec fn effective(s: ShellModel, i: InvModel) -> EnvModel {
    s.env.set_all(i.assigns)
}

/// The state after an invocation. A line of assignments alone sets them in
/// the store; an `export` of one binding sets it there; nothing else
/// changes the state.
pub open spec fn next_state(s: ShellModel, i: InvModel) -> ShellModel {
    match i.exe {
        None => ShellModel { env: s.env.set_all(i.assigns), cwd: s.cwd },
        Some(n) => if builtin_of(n) == Some(Builtin::Export) && exportable(i.args) {
            ShellModel {
                env: s.env.set(export_pair(i.args[0]).0, export_pair(i.args[0]).1),
                cwd: s.cwd,
            }
        } else {
            s
        },
    }
}

/// `a` is the action for invocation `i` in state `s`.
pub open spec fn acts(s: ShellModel, i: InvModel, a: ActionModel) -> bool {
    let eff = effective(s, i);
    match i.exe {
        None => a == ActionModel::Print(seq![]),
        Some(n) => match builtin_of(n) {
            Some(Builtin::Exit) => a == ActionModel::Exit(exit_status_of(i.args)),
            Some(Builtin::Echo) => a == ActionModel::Print(echo_line(i.args)),
            Some(Builtin::Type) => if i.args.len() == 0 {
                a == ActionModel::Print(seq![])
            } else if builtin_of(i.args[0]) is Some {
                a == ActionModel::Print(builtin_message(i.args[0]))
            } else {
                a == ActionModel::Lookup { name: i.args[0], dirs: eff.dirs }
            },
            Some(Builtin::Which) => if i.args.len() == 0 {
                a == ActionModel::Print(seq![])
            } else {
                a == ActionModel::Lookup { name: i.args[0], dirs: eff.dirs }
            },
            Some(Builtin::Env) => exists|p: Seq<(Seq<char>, Seq<char>)>|
                keys_unique(p) && bindings(p) == eff.vars && a == ActionModel::Print(
                    #[trigger] listing(p),
                ),
            Some(Builtin::Export) => if exportable(i.args) {
                a == ActionModel::Print(seq![])
            } else if i.args.len() == 1 && has_char(i.args[0], '=') {
                a == ActionModel::Print(extra_equals_message())
            } else {
                a == ActionModel::Print(bad_format_message())
            },
            Some(Builtin::Cd) => if i.args.len() == 1 {
                a == ActionModel::ChangeDir(i.args[0])
            } else {
                a == ActionModel::Print(bad_format_message())
            },
            Some(Builtin::Pwd) => a == ActionModel::Print(s.cwd + "\n"@),
            None => match a {
                ActionModel::Run { name, args, env, dirs } => {
                    &&& name == n
                    &&& args == i.args
                    &&& keys_unique(env)
                    &&& bindings(env) == eff.vars
                    &&& dirs == eff.dirs
                },
                _ => false,
            },
        },
    }
}

/// The state after an attempt to enter a directory: `now` is the working
/// directory after a success, `None` after a failure.
pub open spec fn after_cd(s: ShellModel, now: Option<Seq<char>>) -> ShellModel {
    match now {
        Some(c) => ShellModel { env: s.env, cwd: c },
        None => s,
    }
}

/// The interpreter's state: the environment store and the working
/// directory.
pub struct Shell {
    env: EnvStore,
    cwd: String,
}

impl View for Shell {
    type V = ShellModel;

    closed spec fn view(&self) -> ShellModel {
        ShellModel { env: self.env@, cwd: self.cwd@ }
    }
}

impl Shell {
    /// The store is well formed.
    pub closed spec fn wf(&self) -> bool {
        self.env.wf()
    }

    /// A shell seeded with inherited bindings and working directory.
    pub fn new(inherited: &Vec<(String, String)>, cwd: String) -> (r: Shell)
        ensures
            r.wf(),
            r@ == (ShellModel { env: EnvModel::empty().set_all(pair_texts(inherited@)), cwd: cwd@ }),
    {
        Shell { env: EnvStore::from_pairs(inherited), cwd }
    }

    /// The environment store.
    pub fn env(&self) -> (r: &EnvStore)
        requires
            self.wf(),
        ensures
            r.wf(),
            r@ == self@.env,
    {
        &self.env
    }

    /// The working directory.
    pub fn cwd(&self) -> (r: &String)
        ensures
            r@ == self@.cwd,
    {
        &self.cwd
    }

    /// Carries out one parsed invocation.
    pub fn dispatch(&mut self, inv: &Invocation) -> (r: Action)
        requires
            old(self).wf(),
        ensures
            final(self).wf(),
            final(self)@ == next_state(old(self)@, inv@),
            acts(old(self)@, inv@, r@),
    {
        let name = match &inv.executable {
            None => {
                self.env.set_each(&inv.assignments);
                return Action::Print(String::new());
            },
            Some(n) => n,
        };
        let args = &inv.args;
        assert(inv@.exe == Some(name@));
        match Builtin::named(name.as_str()) {
            Some(Builtin::Exit) => Action::Exit(exit_status(args)),
            Some(Builtin::Echo) => Action::Print(echo_text(args)),
            Some(Builtin::Type) => {
                if args.len() == 0 {
                    Action::Print(String::new())
                } else {
                    assert(texts(args@)[0] == args@[0]@);
                    match Builtin::named(args[0].as_str()) {
                        Some(_) => Action::Print(builtin_report(args[0].as_str())),
                        None => {
                            let eff = self.env.overlay(&inv.assignments);
                            Action::Lookup { name: args[0].clone(), dirs: copy_texts(eff.search_path()) }
                        },
                    }
                }
            },
            Some(Builtin::Which) => {
                if args.len() == 0 {
                    Action::Print(String::new())
                } else {
                    assert(texts(args@)[0] == args@[0]@);
                    let eff = self.env.overlay(&inv.assignments);
                    Action::Lookup { name: args[0].clone(), dirs: copy_texts(eff.search_path()) }
                }
            },
            Some(Builtin::Env) => {
                let eff = self.env.overlay(&inv.assignments);
                let pairs = eff.snapshot();
                let text = listing_text(&pairs);
                assert(keys_unique(pair_texts(pairs@)));
                Action::Print(text)
            },
            Some(Builtin::Export) => {
                match export_binding(args) {
                    Ok((k, v)) => {
                        proof {
                            let t = texts(args@)[0];
                            assert(t == args@[0]@);
                            assert(single_assignment(t, k@, v@));
                            let (k2, v2) = export_pair(t);
                            lemma_split_unique(t, k@, v@, k2, v2);
                        }
                        self.env.set(k, v);
                        Action::Print(String::new())
                    },
                    Err(e) => {
                        proof {
                            let t = texts(args@)[0];
                            if args@.len() == 1 {
                                assert(t == args@[0]@);
                                if exportable(texts(args@)) {
                                    let (k2, v2) = choose|k: Seq<char>, v: Seq<char>|
                                        single_assignment(t, k, v);
                                    assert(t[k2.len() as int] == '=');
                                }
                            }
                        }
                        Action::Print(e.message())
                    },
                }
            },
            Some(Builtin::Cd) => {
                if args.len() == 1 {
                    assert(texts(args@)[0] == args@[0]@);
                    Action::ChangeDir(args[0].clone())
                } else {
                    Action::Print(bad_format_report())
                }
            },
            Some(Builtin::Pwd) => {
                let mut t = self.cwd.clone();
                t.append("\n");
                Action::Print(t)
            },
            None => {
                let eff = self.env.overlay(&inv.assignments);
                Action::Run {
                    name: name.clone(),
                    args: copy_texts(args),
                    env: eff.snapshot(),
                    dirs: copy_texts(eff.search_path()),
                }
            },
        }
    }

    /// Carries out one command line. A line that is empty or all whitespace
    /// does nothing.
    pub fn step(&mut self, line: &str) -> (r: Action)
        requires
            old(self).wf(),
        ensures
            final(self).wf(),
            words(line@).len() == 0 ==> final(self)@ == old(self)@ && r@ == ActionModel::Print(
                seq![],
            ),
            words(line@).len() > 0 ==> exists|i: InvModel|
                #[trigger] i.reads(words(line@)) && final(self)@ == next_state(old(self)@, i) && acts(
                    old(self)@,
                    i,
                    r@,
                ),
    {
        match parse_line(line) {
            None => Action::Print(String::new()),
            Some(inv) => self.dispatch(&inv),
        }
    }

    /// Reports how an attempt to enter `dir` went: `now` is the working
    /// directory after a success, `None` after a failure. A failure leaves
    /// the working directory as it was, and gives the report to print.
    pub fn entered(&mut self, dir: &str, now: Option<String>) -> (r: String)
        requires
            old(self).wf(),
        ensures
            final(self).wf(),
            final(self)@ == after_cd(
                old(self)@,
                match now {
                    Some(c) => Some(c@),
                    None => None,
                },
            ),
            now is Some ==> r@ == Seq::<char>::empty(),
            now is None ==> r@ == cd_failure_message(dir@),
    {
        match now {
            Some(c) => {
                self.cwd = c;
                String::new()
            },
            None => cd_failure_report(dir),
        }
    }
}

/// The report of `type` or `which` on `name`, given what each directory of
/// the search path lists: where the first directory that holds it has it,
/// or that it was not found.
pub fn lookup_report(name: &str, dirs: &Vec<String>, listings: &Vec<Option<Vec<String>>>) -> (r:
    String)
    requires
        dirs@.len() == listings@.len(),
    ensures
        (forall|i: int| 0 <= i < listings@.len() ==> !#[trigger] listed(listings@[i], name@))
            ==> r@ == crate::builtins::not_found_message(name@),
        forall|i: int| #[trigger]
            first_hit(listings@, name@, i) ==> r@ == crate::builtins::found_message(
                name@,
                join_dir(dirs@[i]@, name@),
            ),
{
    match resolve(name, dirs, listings) {
        Some(p) => {
            proof {
                assert forall|i: int| #[trigger] first_hit(listings@, name@, i) implies p@ == join_dir(dirs@[i]@, name@) by {
                    let w = choose|w: int| first_hit(listings@, name@, w) && p@ == join_dir(#[trigger] dirs@[w]@, name@);
                    crate::resolve::lemma_first_hit_unique(listings@, name@, i, w);
                }
            }
            crate::builtins::found_report(name, p.as_str())
        },
        None => {
            proof {
                assert forall|i: int| #[trigger] first_hit(listings@, name@, i) implies false by {
                    assert(listed(listings@[i], name@));
                }
            }
            crate::builtins::not_found_report(name)
        },
    }
}

/// The program to run for `name`: a name holding `/` is a path of its own;
/// any other is resolved against the search path `dirs`, given what each
/// directory lists. `None` when no directory holds it.
pub fn run_target(name: &str, dirs: &Vec<String>, listings: &Vec<Option<Vec<String>>>) -> (r:
    Option<String>)
    requires
        dirs@.len() == listings@.len(),
    ensures
        has_char(name@, '/') ==> (r matches Some(p) && p@ == name@),
        !has_char(name@, '/') ==> match r {
            Some(p) => exists|i: int|
                first_hit(listings@, name@, i) && p@ == join_dir(#[trigger] dirs@[i]@, name@),
            None => forall|i: int|
                0 <= i < listings@.len() ==> !#[trigger] listed(listings@[i], name@),
        },
{
    if contains_char(name, '/') {
        Some(String::from_str(name))
    } else {
        resolve(name, dirs, listings)
    }
}

/// The report on a program that could not be found or started.
pub fn not_runnable(name: &str) -> (r: String)
    ensures
        r@ == unknown_message(name@),
{
    unknown_report(name)
}

/// Where the captured output of a finished program goes.
#[derive(Clone, Copy, Debug, PartialEq, Eq, Structural)]
pub enum Stream {
    Stdout,
    Stderr,
}

/// A program that succeeded has its standard output relayed; one that
/// failed has its standard error relayed.
pub fn relay(success: bool, stdout: Vec<u8>, stderr: Vec<u8>) -> (r: (Stream, Vec<u8>))
    ensures
        success ==> r.0 == Stream::Stdout && r.1@ == stdout@,
        !success ==> r.0 == Stream::Stderr && r.1@ == stderr@,
{
    if success {
        (Stream::Stdout, stdout)
    } else {
        (Stream::Stderr, stderr)
    }
}

} // verus!
