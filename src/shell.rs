//! The shell's state and the dispatch of a finished command.
//!
//! Running programs and changing directory are left to the caller: a
//! dispatch says which to do (`Action`), and the caller does it.

use vstd::prelude::*;
use crate::evaluate::{shapes_of, Eval, EvalResult, eval_words, evaluate_from};
use crate::table::{Table, grew_from};
use crate::tokenize::{apply_assignments, assign_from, assignment_shape, is_assignment};
use crate::text::{chars_of, same_chars, string_of, strings_of, strings_view, words_of, words_view};

verus! {

/// An error that a command line can come to.
#[derive(PartialEq, Eq, Structural, Debug, Clone, Copy)]
pub enum ShellError {
    /// A double quote was left open.
    UnterminatedQuote,
    /// `cd` was given two arguments or more.
    CdTooManyArguments,
    /// `alias` was given more than two arguments.
    AliasTooManyArguments,
    /// `alias` was given fewer than two arguments.
    AliasTooFewArguments,
}

/// What the caller is to do after a command line.
#[derive(Debug)]
pub enum Action {
    /// Nothing more: read the next line.
    Continue,
    /// End the session.
    Exit,
    /// Change to the given directory, as typed (see `expand_tilde`).
    ChangeDir(String),
    /// Run a program and wait for it: the name that was typed, then the
    /// program and its arguments.
    Spawn(String, Vec<String>),
    /// Run this command and capture its standard output, then evaluate the
    /// same line again with that output added to the ones given.
    NeedsOutput(Vec<String>),
    /// Report an error.
    Failed(ShellError),
}

/// What the caller is to do, over views.
pub enum Step {
    Continue,
    Exit,
    ChangeDir(Seq<char>),
    Spawn(Seq<char>, Seq<Seq<char>>),
    Pending(Seq<Seq<char>>),
    Failed(ShellError),
}

pub open spec fn action_view(a: Action) -> Step {
    match a {
        Action::Continue => Step::Continue,
        Action::Exit => Step::Exit,
        Action::ChangeDir(d) => Step::ChangeDir(d@),
        Action::Spawn(n, argv) => Step::Spawn(n@, strings_view(argv@)),
        Action::NeedsOutput(c) => Step::Pending(strings_view(c@)),
        Action::Failed(e) => Step::Failed(e),
    }
}

/// A step together with the variables and aliases that it leaves.
pub struct Dispatched {
    pub step: Step,
    pub vars: Map<Seq<char>, Seq<char>>,
    pub aliases: Map<Seq<char>, Seq<char>>,
}

/// Dispatch of a finished argument vector: `cd`, `alias` and `exit` are
/// built in; a name with an alias runs the alias's words followed by the
/// given arguments; any other name runs as a program. `outs` and `used` are
/// as for `evaluate_from`, for the substitutions in an alias.
pub open spec fn dispatch_from(
    vars: Map<Seq<char>, Seq<char>>,
    aliases: Map<Seq<char>, Seq<char>>,
    argv: Seq<Seq<char>>,
    outs: Seq<Seq<char>>,
    used: nat,
) -> Dispatched {
    let same = |step: Step| Dispatched { step, vars, aliases };
    if argv.len() == 0 {
        same(Step::Continue)
    } else {
        let cmd = argv[0];
        let args = argv.drop_first();
        if cmd == "cd"@ {
            if args.len() == 0 {
                same(Step::ChangeDir("~"@))
            } else if args.len() == 1 {
                same(Step::ChangeDir(args[0]))
            } else {
                same(Step::Failed(ShellError::CdTooManyArguments))
            }
        } else if cmd == "alias"@ {
            if args.len() == 2 {
                Dispatched { step: Step::Continue, vars, aliases: aliases.insert(args[0], args[1]) }
            } else if args.len() > 2 {
                same(Step::Failed(ShellError::AliasTooManyArguments))
            } else {
                same(Step::Failed(ShellError::AliasTooFewArguments))
            }
        } else if cmd == "exit"@ {
            same(Step::Exit)
        } else if aliases.contains_key(cmd) {
            let e = evaluate_from(vars, aliases[cmd], outs, used);
            let step = match e.result {
                EvalResult::Pending(c) => Step::Pending(c),
                EvalResult::Unterminated => Step::Failed(ShellError::UnterminatedQuote),
                EvalResult::Words(w) => {
                    let eff = w + args;
                    if eff.len() == 0 {
                        Step::Continue
                    } else {
                        Step::Spawn(cmd, eff)
                    }
                },
            };
            Dispatched { step, vars: e.vars, aliases }
        } else {
            same(Step::Spawn(cmd, argv))
        }
    }
}

/// A whole command line: evaluated, then dispatched.
pub open spec fn line_from(
    vars: Map<Seq<char>, Seq<char>>,
    aliases: Map<Seq<char>, Seq<char>>,
    line: Seq<char>,
    outs: Seq<Seq<char>>,
) -> Dispatched {
    let e = evaluate_from(vars, line, outs, 0);
    match e.result {
        EvalResult::Pending(c) => Dispatched { step: Step::Pending(c), vars: e.vars, aliases },
        EvalResult::Unterminated => Dispatched {
            step: Step::Failed(ShellError::UnterminatedQuote),
            vars: e.vars,
            aliases,
        },
        EvalResult::Words(w) => dispatch_from(e.vars, aliases, w, outs, e.used),
    }
}

/// The outcome of evaluating a line on its own.
#[derive(Debug)]
pub enum Evaluation {
    /// The argument vector.
    Words(Vec<String>),
    /// A double quote was left open; no argument vector.
    Unterminated,
    /// Run this command and capture its output, then evaluate again with it.
    NeedsOutput(Vec<String>),
}

/// The shell's state.
pub struct Shell {
    /// The directory that the last successful `cd` went to, as typed.
    pub working_dir: String,
    pub vars: Table,
    pub aliases: Table,
}

impl Shell {
    /// A shell in `working_dir`, with `PS1` set to `"> "` and no aliases.
    pub fn new(working_dir: String) -> (r: Shell)
        ensures
            r.vars@ == Map::<Seq<char>, Seq<char>>::empty().insert("PS1"@, "> "@),
            r.aliases@ == Map::<Seq<char>, Seq<char>>::empty(),
            r.working_dir@ == working_dir@,
    {
        let mut vars = Table::new();
        vars.set("PS1", "> ");
        Shell { working_dir, vars, aliases: Table::new() }
    }

    /// Evaluates the command line `total` (see `evaluate_from`), given the outputs of its
    /// command substitutions so far. Where one more output is needed the
    /// variables are left as they were.
    pub fn parse_argv(&mut self, total: String, outputs: &Vec<String>) -> (r: Evaluation)
        ensures
            ({
                let e = evaluate_from(old(self).vars@, total@, strings_view(outputs@), 0);
                match r {
                    Evaluation::Words(w) => e.result == EvalResult::Words(strings_view(w@))
                        && final(self).vars@ == e.vars,
                    Evaluation::Unterminated => e.result == EvalResult::Unterminated
                        && final(self).vars@ == e.vars,
                    Evaluation::NeedsOutput(c) => e.result == EvalResult::Pending(strings_view(c@))
                        && final(self).vars@ == old(self).vars@,
                }
            }),
            final(self).aliases@ == old(self).aliases@,
            final(self).working_dir == old(self).working_dir,
    {
        let text = chars_of(total.as_str());
        let outs = words_of(outputs);
        let n = self.vars.len();
        let (e, _) = eval_words(&mut self.vars, &text, &outs, 0);
        match e {
            Eval::Words(w) => Evaluation::Words(strings_of(&w)),
            Eval::Unterminated => Evaluation::Unterminated,
            Eval::Pending(c) => {
                proof { old(self).vars.lemma_at_own_size(); }
                self.vars.truncate(n);
                Evaluation::NeedsOutput(strings_of(&c))
            },
        }
    }

    /// Dispatch of an argument vector whose substitutions started at `used`.
    fn dispatch_words(&mut self, argv: &Vec<Vec<char>>, outs: &Vec<Vec<char>>, used: usize) -> (r: Action)
        requires
            used <= outs@.len(),
        ensures
            ({
                let d = dispatch_from(old(self).vars@, old(self).aliases@, words_view(argv@), words_view(outs@), used as nat);
                &&& action_view(r) == d.step
                &&& final(self).vars@ == d.vars
                &&& final(self).aliases@ == d.aliases
            }),
            grew_from(final(self).vars, old(self).vars),
            final(self).working_dir == old(self).working_dir,
    {
        if argv.len() == 0 {
            return Action::Continue;
        }
        let ghost av = words_view(argv@);
        let cmd = &argv[0];
        let nargs = argv.len() - 1;
        if same_chars(cmd, &chars_of("cd")) {
            if nargs == 0 {
                Action::ChangeDir(string_of(&chars_of("~")))
            } else if nargs == 1 {
                Action::ChangeDir(string_of(&argv[1]))
            } else {
                Action::Failed(ShellError::CdTooManyArguments)
            }
        } else if same_chars(cmd, &chars_of("alias")) {
            if nargs == 2 {
                self.aliases.bind(argv[1].clone(), argv[2].clone());
                Action::Continue
            } else if nargs > 2 {
                Action::Failed(ShellError::AliasTooManyArguments)
            } else {
                Action::Failed(ShellError::AliasTooFewArguments)
            }
        } else if same_chars(cmd, &chars_of("exit")) {
            Action::Exit
        } else {
            match self.aliases.lookup(cmd) {
                Some(text) => {
                    let (e, _) = eval_words(&mut self.vars, &text, outs, used);
                    match e {
                        Eval::Pending(c) => Action::NeedsOutput(strings_of(&c)),
                        Eval::Unterminated => Action::Failed(ShellError::UnterminatedQuote),
                        Eval::Words(w) => {
                            let mut eff = w;
                            let ghost w0 = words_view(eff@);
                            let mut i: usize = 1;
                            while i < argv.len()
                                invariant
                                    1 <= i <= argv@.len(),
                                    av == words_view(argv@),
                                    words_view(eff@) == w0 + av.drop_first().take(i - 1),
                                decreases argv.len() - i,
                            {
                                let ghost e0 = eff@;
                                eff.push(argv[i].clone());
                                assert(words_view(eff@) =~= words_view(e0).push(av[i as int]));
                                assert(av.drop_first().take(i as int) =~= av.drop_first().take(i - 1).push(av[i as int]));
                                i += 1;
                            }
                            assert(av.drop_first().take(argv@.len() - 1) =~= av.drop_first());
                            if eff.len() == 0 {
                                Action::Continue
                            } else {
                                Action::Spawn(string_of(cmd), strings_of(&eff))
                            }
                        },
                    }
                },
                None => Action::Spawn(string_of(cmd), strings_of(argv)),
            }
        }
    }

    /// Dispatches an argument vector (see `dispatch_from`), given the outputs
    /// of the command substitutions in an alias so far. Where one more output
    /// is needed the shell is left as it was.
    pub fn dispatch(&mut self, argv: &Vec<String>, outputs: &Vec<String>) -> (r: Action)
        ensures
            ({
                let d = dispatch_from(old(self).vars@, old(self).aliases@, strings_view(argv@), strings_view(outputs@), 0);
                &&& action_view(r) == d.step
                &&& (d.step is Pending ==> final(self).vars@ == old(self).vars@)
                &&& (!(d.step is Pending) ==> final(self).vars@ == d.vars)
                &&& final(self).aliases@ == d.aliases
            }),
            argv@.len() >= 3 && argv@[0]@ == "cd"@ ==> r == Action::Failed(ShellError::CdTooManyArguments)
                && final(self).vars@ == old(self).vars@ && final(self).aliases@ == old(self).aliases@,
            final(self).working_dir == old(self).working_dir,
    {
        let words = words_of(argv);
        let outs = words_of(outputs);
        let n = self.vars.len();
        let r = self.dispatch_words(&words, &outs, 0);
        if let Action::NeedsOutput(_) = r {
            proof { old(self).vars.lemma_at_own_size(); }
            self.vars.truncate(n);
        }
        r
    }

    /// Evaluates and dispatches a command line (see `line_from`), given the
    /// outputs of its command substitutions so far. Where one more output is
    /// needed the shell is left as it was.
    pub fn run_line(&mut self, line: &str, outputs: &Vec<String>) -> (r: Action)
        ensures
            ({
                let d = line_from(old(self).vars@, old(self).aliases@, line@, strings_view(outputs@));
                &&& action_view(r) == d.step
                &&& (d.step is Pending ==> final(self).vars@ == old(self).vars@)
                &&& (!(d.step is Pending) ==> final(self).vars@ == d.vars)
                &&& final(self).aliases@ == d.aliases
            }),
            final(self).working_dir == old(self).working_dir,
    {
        let text = chars_of(line);
        let outs = words_of(outputs);
        let n = self.vars.len();
        let (e, used) = eval_words(&mut self.vars, &text, &outs, 0);
        let r = match e {
            Eval::Pending(c) => Action::NeedsOutput(strings_of(&c)),
            Eval::Unterminated => Action::Failed(ShellError::UnterminatedQuote),
            Eval::Words(w) => self.dispatch_words(&w, &outs, used),
        };
        if let Action::NeedsOutput(_) = r {
            proof { old(self).vars.lemma_at_own_size(); }
            self.vars.truncate(n);
        }
        r
    }

    /// The assignment pass over the fields `data`: fields of the shape
    /// `name=value` bind variables and are dropped; the others are returned.
    pub fn eval_vars(&mut self, data: Vec<String>) -> (r: Vec<String>)
        ensures
            (final(self).vars@, strings_view(r@)) == assign_from(
                old(self).vars@,
                strings_view(data@),
                shapes_of(strings_view(data@)),
                0,
                Seq::empty(),
            ),
            final(self).aliases@ == old(self).aliases@,
            final(self).working_dir == old(self).working_dir,
    {
        let mut shapes: Vec<bool> = Vec::new();
        let mut i: usize = 0;
        while i < data.len()
            invariant
                i <= data@.len(),
                shapes@.len() == i,
                forall|j: int| 0 <= j < i ==> shapes@[j] == assignment_shape(data@[j]@),
            decreases data.len() - i,
        {
            shapes.push(is_assignment(data[i].as_str()));
            i += 1;
        }
        assert(shapes@ =~= shapes_of(strings_view(data@)));
        let fields = words_of(&data);
        let kept = apply_assignments(&mut self.vars, fields, &shapes);
        strings_of(&kept)
    }

    /// Records the outcome of a `cd` to `target`: the working directory
    /// becomes `target` where the change succeeded, and stays where it failed.
    pub fn finish_cd(&mut self, target: String, changed: bool)
        ensures
            final(self).working_dir@ == (if changed { target@ } else { old(self).working_dir@ }),
            final(self).vars@ == old(self).vars@,
            final(self).aliases@ == old(self).aliases@,
    {
        if changed {
            self.working_dir = target;
        }
    }
}

} // verus!
