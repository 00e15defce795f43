//! The state of a running program and running a program from source code.

use crate::atom::{Atom, Function};
use crate::exception::{Exception, NameError, SyntaxError};
use crate::eval::eval;
use crate::host::Host;
use crate::optimizations::run_optimizations;
use crate::parser::build_program;
use crate::span::{check_positions_fit, no_path, positions_fit, Span};
use crate::storage::{st_lookup, Storage};
use crate::text::{chars_of, push_str, string_from_chars};
use crate::token::{lemma_lex_failure_independent, lex_error, no_start, tokenize, tokenize_spec, LexOutcome};
use crate::argument::arg_size;
use crate::optimizations::optimized;
use crate::parser::parse_program;
use crate::semantics::{builtin_env, env_of, final_value, is_stl, ctx_of, reserve, run_result, simple_value, Ctx, Outcome};
use crate::builtins::builtin_names;
use std::rc::Rc;
use vstd::prelude::*;

verus! {

/// The directory (or pseudo-directory) a program comes from, where `import`
/// looks for files.
#[derive(Debug, Clone)]
pub enum Directory {
    /// A directory of the file system.
    Regular(String),
    /// Code run by `eval`.
    FromEval,
    /// The standard library (and code given directly as text).
    InternedSTL,
}

/// The central structure for running a program.
pub struct State {
    /// All values that can be accessed during the program's execution.
    pub storage: Storage,
    /// The directory in which the current program is placed.
    pub file_directory: Directory,
    /// The path of the file being run, if any.
    pub current_file_path: Option<String>,
    /// The value `exit` was called with, once it was.
    pub exit_unwind_value: Option<Result<Atom, Exception>>,
    /// The spans of the nodes being evaluated, outermost first.
    pub backtrace: Vec<Span>,
    /// The doc comment of the call being evaluated.
    pub current_doc_comment: Option<String>,
    /// The name of the function being called.
    pub current_fn_name: Option<String>,
    /// The paths of the files being imported, to detect cyclic imports.
    pub import_stack: Vec<String>,
    /// The modules of the standard library: names and code.
    pub stl: Rc<Vec<(String, String)>>,
    /// The code to run.
    pub code: Option<String>,
    /// The type id the next `type` declaration gets.
    pub next_type_id: i64,
    /// Whether the program is optimized before it runs.
    pub optimizations_enabled: bool,
}

impl Default for State {
    /// A state without a standard library (see [`State::new`]).
    fn default() -> (s: State)
        ensures
            s.storage.wf(),
            s.storage.well_scoped(),
            s.storage.scope() == 0,
            s.exit_unwind_value.is_none(),
            s.code.is_none(),
            s.stl@.len() == 0,
    {
        State::new(Rc::new(Vec::new()))
    }
}

/// The text that runs for a program: the code wrapped in a call of `_` that
/// first imports the prelude.
pub open spec fn wrapped_program(code: Seq<char>) -> Seq<char> {
    "_(__builtin_prelude_import(),\n"@ + code + "\n)"@
}

/// The syntax error found in lexing the program whose code is `code`, if any
/// (and if the lines and columns of the program fit in `u32`).
pub open spec fn program_lex_error(code: Option<String>) -> Option<Seq<char>> {
    match code {
        Some(c) => if positions_fit(wrapped_program(c@)) {
            lex_error(wrapped_program(c@))
        } else {
            None
        },
        None => None,
    }
}

/// The text of the path of the file being run (empty for code that is not
/// from a file): the file that the spans of a program name.
pub open spec fn path_text(p: Option<String>) -> Seq<char> {
    match p {
        Some(s) => s@,
        None => Seq::empty(),
    }
}

/// What running the code `code` gives where it is a simple program (see
/// [`simple_value`]): the code wrapped as a program, split into tokens
/// naming the file `file`, parsed, optimized if `optimize` says so, and
/// evaluated over the visible values `env` in the context `cx`; `None` where
/// any step fails, where a line or the line count of the program does not fit
/// in `u32`, or where the program has too many nodes for the nesting limit
/// `depth` (with the depth kept for calls, see [`reserve`]).
pub open spec fn program_outcome(
    code: Seq<char>,
    file: Rc<String>,
    optimize: bool,
    depth: int,
    env: Map<Seq<char>, crate::atom::AtomV>,
    cx: Ctx,
) -> Outcome {
    if positions_fit(wrapped_program(code)) {
        match tokenize_spec(wrapped_program(code), file) {
            LexOutcome::Done(ts) => match parse_program(ts) {
                Ok(p) => {
                    let q = if optimize {
                        optimized(p)
                    } else {
                        p
                    };
                    if reserve(cx.1) + 5 * arg_size(q) < depth {
                        simple_value(q, env, cx)
                    } else {
                        None
                    }
                },
                Err(_) => None,
            },
            LexOutcome::Failed(_) => None,
        }
    } else {
        None
    }
}

/// What running the code of `st` within the nesting limit `depth` gives,
/// where it is a simple program and the bindings of `st` are well scoped,
/// with spans naming the file `file`.
pub open spec fn run_outcome(st: State, file: Rc<String>, depth: int) -> Outcome {
    match st.code {
        Some(c) => if st.storage.well_scoped() {
            program_outcome(c@, file, st.optimizations_enabled, depth, env_of(st.storage@), ctx_of(st))
        } else {
            None
        },
        None => None,
    }
}

/// A run does not depend on an `exit` of an earlier run: two states that
/// differ at most in the value given to `exit` (and in what the run does not
/// read) have the same outcome, for every file naming and nesting limit.
pub proof fn law_run_ignores_earlier_exit(a: State, b: State, f: Rc<String>, depth: int)
    requires
        a.storage == b.storage,
        a.code == b.code,
        a.optimizations_enabled == b.optimizations_enabled,
        a.file_directory == b.file_directory,
    ensures
        run_outcome(a, f, depth) == run_outcome(b, f, depth),
{
}

/// The type id handed out by the `i`-th `type` declaration counted from a
/// state whose next type id is `start` (see [`State::make_type_id`]).
pub open spec fn nth_type_id(start: i64, i: nat) -> i64
    decreases i,
{
    if i == 0 {
        start
    } else {
        nth_type_id(start, (i - 1) as nat).wrapping_add(1)
    }
}

/// The `i`-th id differs from `start + i` by a whole number of wraps.
proof fn lemma_nth_type_id(start: i64, i: nat) -> (k: int)
    ensures
        nth_type_id(start, i) == start + i + k * 0x1_0000_0000_0000_0000,
    decreases i,
{
    if i == 0 {
        0
    } else {
        let k0 = lemma_nth_type_id(start, (i - 1) as nat);
        let x = nth_type_id(start, (i - 1) as nat);
        if x + 1 > i64::MAX {
            k0 - 1
        } else {
            k0
        }
    }
}

/// Type ids are handed out in turn, each the one before advanced by one, so
/// no id is handed out twice before 2^64 declarations.
pub proof fn law_type_ids_distinct(start: i64, i: nat, j: nat)
    requires
        i < j < 0x1_0000_0000_0000_0000,
    ensures
        nth_type_id(start, i) != nth_type_id(start, j),
        nth_type_id(start, i + 1) == nth_type_id(start, i).wrapping_add(1),
{
    let ki = lemma_nth_type_id(start, i);
    let kj = lemma_nth_type_id(start, j);
    if nth_type_id(start, i) == nth_type_id(start, j) {
        assert((kj - ki) * 0x1_0000_0000_0000_0000 == i - j);
        assert(false) by (nonlinear_arith)
            requires
                (kj - ki) * 0x1_0000_0000_0000_0000 == i - j,
                0 < j - i < 0x1_0000_0000_0000_0000,
        ;
    }
}

/// The type id given to the first type a program declares.
pub const MIN_OBJECT_TY_ID: i64 = 6;

impl State {
    /// A state for running a program with the given standard library: all
    /// builtins defined, nothing run yet.
    ///
    /// Set the code with [`State::with_code`] before running.
    pub fn new(stl: Rc<Vec<(String, String)>>) -> (s: State)
        ensures
            s.storage.wf(),
            s.storage.well_scoped(),
            s.storage.scope() == 0,
            s.exit_unwind_value.is_none(),
            s.backtrace@.len() == 0,
            s.code.is_none(),
            s.next_type_id == MIN_OBJECT_TY_ID,
            !s.optimizations_enabled,
            s.stl == stl,
            s.current_file_path.is_none(),
            is_stl(s),
            builtin_env(env_of(s.storage@)),
    {
        let storage = Storage::initial();
        proof {
            let env = env_of(storage@);
            assert forall|n: Seq<char>| #[trigger] env.contains_key(n) implies builtin_names().contains(n) by {
                assert(storage@.contains_key(n));
            }
        }
        State {
            storage,
            file_directory: Directory::InternedSTL,
            current_file_path: None,
            exit_unwind_value: None,
            backtrace: Vec::new(),
            current_doc_comment: None,
            current_fn_name: None,
            import_stack: Vec::new(),
            stl,
            code: None,
            next_type_id: MIN_OBJECT_TY_ID,
            optimizations_enabled: false,
        }
    }

    /// Sets the code that will be executed.
    pub fn with_code(self, code: &str) -> (s: State)
        ensures
            s.code matches Some(c) && c@ == code@,
            s.storage == self.storage,
            s.current_file_path == self.current_file_path,
            s.file_directory == self.file_directory,
            s.exit_unwind_value == self.exit_unwind_value,
            s.next_type_id == self.next_type_id,
            s.optimizations_enabled == self.optimizations_enabled,
            s.stl == self.stl,
    {
        let mut s = self;
        s.code = Some(string_from_chars(&chars_of(code)));
        s
    }

    /// Sets the source directory for resolving imports to the given directory.
    /// This does not set or change the program code.
    pub fn with_source_directory(self, dir_path: &str) -> (s: State)
        ensures
            s.file_directory matches Directory::Regular(d) && d@ == dir_path@,
            s.code == self.code,
            s.current_file_path == self.current_file_path,
            s.storage == self.storage,
            s.optimizations_enabled == self.optimizations_enabled,
    {
        let mut s = self;
        s.file_directory = Directory::Regular(string_from_chars(&chars_of(dir_path)));
        s
    }

    /// Sets the file the code comes from, and its directory for imports: the
    /// code of a file, read by the caller.
    pub fn with_source_file(self, code: &str, path: &str, dir_path: &str) -> (s: State)
        ensures
            s.code matches Some(c) && c@ == code@,
            s.current_file_path matches Some(p) && p@ == path@,
            s.file_directory matches Directory::Regular(d) && d@ == dir_path@,
            s.storage == self.storage,
            s.optimizations_enabled == self.optimizations_enabled,
    {
        let mut s = self.with_code(code);
        s.current_file_path = Some(string_from_chars(&chars_of(path)));
        s.with_source_directory(dir_path)
    }

    /// Enables optimizations which run prior to execution.
    ///
    /// Enabling optimizations may change the behavior of programs that redefine
    /// builtins.
    pub fn enable_optimizations(self) -> (s: State)
        ensures
            s.optimizations_enabled,
            s.code == self.code,
            s.storage == self.storage,
    {
        let mut s = self;
        s.optimizations_enabled = true;
        s
    }

    /// Sets the path of the file being run.
    pub fn set_current_file_path(&mut self, path: &str)
        ensures
            final(self).current_file_path matches Some(p) && p@ == path@,
            final(self).storage == old(self).storage,
            final(self).exit_unwind_value == old(self).exit_unwind_value,
            final(self).code == old(self).code,
            final(self).file_directory == old(self).file_directory,
            final(self).optimizations_enabled == old(self).optimizations_enabled,
    {
        self.current_file_path = Some(string_from_chars(&chars_of(path)));
    }

    /// Returns a new type id for a `type` declaration; ids are handed out in
    /// increasing order.
    pub fn make_type_id(&mut self) -> (id: i64)
        ensures
            id == old(self).next_type_id,
            final(self).next_type_id == old(self).next_type_id.wrapping_add(1),
            final(self).storage == old(self).storage,
            final(self).exit_unwind_value == old(self).exit_unwind_value,
            final(self).backtrace == old(self).backtrace,
    {
        let old = self.next_type_id;
        self.next_type_id = self.next_type_id.wrapping_add(1);
        old
    }

    /// An exception with the given error kind and message at the current
    /// point of execution.
    pub fn raise(&self, error: &str, msg: &str) -> (e: Exception)
        ensures
            e.error@ == error@,
            e.msg@ == msg@,
            e.backtrace == Some(e.backtrace.unwrap()),
            e.backtrace.unwrap()@ == self.backtrace@,
    {
        Exception::with_trace(error, msg, self.backtrace.as_slice())
    }

    /// The function bound to `name`; a `Name` error if there is none or the
    /// value is not a function.
    pub fn get_function(&self, name: &str) -> (r: Result<Function, Exception>)
        requires
            self.storage.wf(),
        ensures
            match st_lookup(self.storage@, name@) {
                Some(Atom::Function(f)) => r == Ok::<Function, Exception>(f),
                Some(_) => r matches Err(e) && e.error@ == NameError@ && e.msg@ == "`"@ + name@
                    + "` is not a function!"@,
                None => r matches Err(e) && e.error@ == NameError@ && e.msg@ == "No function `"@
                    + name@ + "` found!"@,
            },
    {
        match self.storage.get(name) {
            Some(atom) => match atom {
                Atom::Function(f) => Ok(f.clone()),
                _ => {
                    let mut v: Vec<char> = Vec::new();
                    push_str(&mut v, "`");
                    push_str(&mut v, name);
                    push_str(&mut v, "` is not a function!");
                    Err(self.raise(NameError, string_from_chars(&v).as_str()))
                },
            },
            None => {
                let mut v: Vec<char> = Vec::new();
                push_str(&mut v, "No function `");
                push_str(&mut v, name);
                push_str(&mut v, "` found!");
                Err(self.raise(NameError, string_from_chars(&v).as_str()))
            },
        }
    }

    /// Runs the code set with [`State::with_code`] and returns what it
    /// evaluates to, or the value given to `exit` if it was called.
    ///
    /// The code is wrapped as `_(__builtin_prelude_import(),\n<code>\n)`, so
    /// reported lines count from 0, and the prelude of the standard library is
    /// imported first (except when running the standard library itself).
    pub fn run<H: Host>(&mut self, host: &mut H) -> (r: Result<Atom, Exception>)
        requires
            old(self).storage.wf(),
            old(self).code.is_some(),
        ensures
            final(self).storage.wf(),
            final(self).storage.scope() == old(self).storage.scope(),
            program_lex_error(old(self).code) is Some ==> (r matches Err(e) && e.error@ == SyntaxError@
                && e.msg@ == program_lex_error(old(self).code).unwrap()),
            exists|f: Rc<String>|
                f@ == path_text(old(self).current_file_path) && #[trigger] run_result(
                    run_outcome(*old(self), f, crate::eval::MAX_DEPTH as int),
                    *old(self),
                    *final(self),
                    r,
                ),
    {
        self.run_nested(host, crate::eval::MAX_DEPTH)
    }

    /// Runs the code as [`State::run`] does, within the given nesting depth
    /// (for code run by a running program: imports and `eval`).
    pub fn run_nested<H: Host>(&mut self, host: &mut H, depth: u64) -> (r: Result<Atom, Exception>)
        requires
            old(self).storage.wf(),
            old(self).code.is_some(),
        ensures
            final(self).storage.wf(),
            final(self).storage.scope() == old(self).storage.scope(),
            depth > 0 && program_lex_error(old(self).code) is Some ==> (r matches Err(e) && e.error@
                == SyntaxError@ && e.msg@ == program_lex_error(old(self).code).unwrap()),
            exists|f: Rc<String>|
                f@ == path_text(old(self).current_file_path) && #[trigger] run_result(
                    run_outcome(*old(self), f, depth as int),
                    *old(self),
                    *final(self),
                    r,
                ),
        decreases depth,
    {
        self.exit_unwind_value = None;
        let code = match &self.code {
            Some(c) => c,
            None => {
                return Err(
                    Exception::unspanned(SyntaxError, "setting the source code is required"),
                );
            },
        };
        let file_path: Rc<String> = match &self.current_file_path {
            Some(p) => Rc::new(string_from_chars(&chars_of(p.as_str()))),
            None => no_path(),
        };
        let ghost out = run_outcome(*old(self), file_path, depth as int);
        proof {
            assert(file_path@ == path_text(old(self).current_file_path));
        }
        if depth == 0 {
            let e = self.raise(crate::eval::RecursionError, "maximum evaluation depth reached");
            proof {
                assert(run_result(out, *old(self), *self, Err::<Atom, Exception>(e)));
            }
            return Err(e);
        }
        let mut full: Vec<char> = Vec::new();
        push_str(&mut full, "_(__builtin_prelude_import(),\n");
        push_str(&mut full, code.as_str());
        push_str(&mut full, "\n)");
        proof {
            reveal_strlit("_(__builtin_prelude_import(),\n");
            reveal_strlit("\n)");
            assert(full@ =~= wrapped_program(old(self).code.unwrap()@));
        }
        if !check_positions_fit(&full) {
            let e = Exception::unspanned(SyntaxError, "program too long");
            proof {
                assert(run_result(out, *old(self), *self, Err::<Atom, Exception>(e)));
            }
            return Err(e);
        }
        let full_code = string_from_chars(&full);
        proof {
            lemma_lex_failure_independent(
                full_code@,
                file_path,
                vstd::pervasive::arbitrary(),
                0,
                Seq::empty(),
                Seq::empty(),
                Seq::empty(),
                no_start(),
            );
        }
        let tokens = match tokenize(full_code.as_str(), file_path) {
            Ok(t) => t,
            Err(e) => {
                proof {
                    assert(run_result(out, *old(self), *self, Err::<Atom, Exception>(e)));
                }
                return Err(e);
            },
        };
        let mut program = match build_program(tokens) {
            Ok(p) => p,
            Err(e) => {
                proof {
                    assert(run_result(out, *old(self), *self, Err::<Atom, Exception>(e)));
                }
                return Err(e);
            },
        };
        let ghost parsed = program@;
        if self.optimizations_enabled {
            run_optimizations(&mut program);
        }
        proof {
            assert(program@ == if old(self).optimizations_enabled {
                optimized(parsed)
            } else {
                parsed
            });
        }
        let ghost mid = *self;
        let result = eval(&program, self, host, depth - 1);
        let r = match result {
            Err(e) => Err(e),
            Ok(a) => match &self.exit_unwind_value {
                Some(Ok(v)) => Ok(v.clone()),
                Some(Err(e)) => Err(e.clone()),
                None => Ok(a),
            },
        };
        proof {
            assert(env_of(mid.storage@) == env_of(old(self).storage@));
            assert(ctx_of(mid) == ctx_of(*old(self)));
            assert(run_result(out, *old(self), *self, r));
        }
        r
    }
}

/// The value a program's outcome gives, where it is known (see
/// [`program_outcome`]).
pub open spec fn outcome_value(o: Outcome, r: Result<Atom, Exception>) -> bool {
    match o {
        Some((v, _, x)) => r matches Ok(y) && y@ == final_value(v, x),
        None => true,
    }
}

/// Runs a program given as text, with the given standard library and
/// outside world, and returns what it evaluates to (or the value given to
/// `exit`).
pub fn run<H: Host>(code: &str, stl: Rc<Vec<(String, String)>>, host: &mut H) -> (r: Result<
    Atom,
    Exception,
>)
    ensures
        positions_fit(wrapped_program(code@)) && lex_error(wrapped_program(code@)) is Some ==> (
        r matches Err(e) && e.error@ == SyntaxError@ && e.msg@ == lex_error(
            wrapped_program(code@),
        ).unwrap()),
        exists|env: Map<Seq<char>, crate::atom::AtomV>, f: Rc<String>, g: Set<Seq<char>>|
            builtin_env(env) && f@ == Seq::<char>::empty() && #[trigger] outcome_value(
                program_outcome(code@, f, false, crate::eval::MAX_DEPTH as int, env, (true, 0nat, g)),
                r,
            ),
{
    let state0 = State::new(stl).with_code(code);
    let mut state = state0;
    let r = state.run(host);
    proof {
        let f = choose|f: Rc<String>|
            f@ == path_text(state0.current_file_path) && #[trigger] run_result(
                run_outcome(state0, f, crate::eval::MAX_DEPTH as int),
                state0,
                state,
                r,
            );
        assert(outcome_value(
            program_outcome(code@, f, false, crate::eval::MAX_DEPTH as int, env_of(state0.storage@), ctx_of(state0)),
            r,
        ));
    }
    r
}

} // verus!
