//! Running the builtin functions: each evaluates its arguments as it needs
//! them and computes its result.

use crate::argument::Argument;
use crate::atom::{Atom, Function, FunctionBody};
use crate::atom_order::builtin_atom_cmp;
use crate::builtins::fn_def::{check_argc, define_function};
use crate::builtins::import::{check_import_name, find_import_file, try_resolve_import_in_stl, valid_import_name};
use crate::builtins::list::{
    index_bound,
    list_mode_argc,
    REMOVE,
    builtin_list_api,
    list_api_values,
    expected_list_argc,
    int_from_usize,
    list_index_checked,
    list_len,
    INDEX,
    INSERT,
    LEN,
};
use crate::builtins::math::{builtin_int_math, builtin_int_shift};
use crate::builtins::ty::{get_field, set_field, type_, type_constructor};
use crate::object::{field_lookup, keys_sorted};
use crate::builtins::{builtin_argc, builtin_argcs};
use crate::equality::atoms_equal;
use crate::eval::{
    argc_fits,
    defined_result,
    all_literal,
    all_known,
    known_vals,
    known_value,
    leaf_value,
    without_call,
    call_function,
    eval,
    eval_as_string,
    eval_bool,
    eval_function,
    eval_int,
    eval_list,
    eval_object,
    too_deep,
};
use crate::exception::{ArgumentError, Exception, ImportError, IndexError, IoError, NameError, OverflowError, SyntaxError, TypeError};
use crate::host::{epoch_duration, Host};
use crate::state::{path_text, program_outcome, run_outcome, Directory, State};
use crate::atom::AtomV;
use std::rc::Rc;
use crate::span::Span;
use crate::argument::{arg_size, args_size, args_view, lemma_args_size, lemma_args_size_monotone, lemma_args_view};
use crate::semantics::{scope_of, simple_compare, list_view_result, lemma_simple_args_step, lemma_simple_args_len, lemma_simple_args_prefix, simple_args, simple_list_api, simple_while, simple_for, exit_matches, run_result, builtin_env, Ctx, Outcome, env_of, is_stl, ctx_of, doc_of, reserve, globals_of, lemma_globals_insert, lemma_env_insert, lemma_simple_seq_prefix, simple_builtin, simple_result, simple_seq, simple_value};
use crate::storage::{lemma_scoped_change_refl, lemma_scoped_change_insert, lemma_scoped_change_trans, scoped_change, single_locals, st_extend, st_insert, st_lookup, StoredV};
use crate::text::{chars_of, int_digits, push_i64, push_str, push_u64, string_from_chars};
use vstd::prelude::*;

verus! {

/// The text `a` followed by `b` and `c`.
fn text3(a: &str, b: &str, c: &str) -> (s: String)
    ensures
        s@ == a@ + b@ + c@,
{
    let mut v: Vec<char> = Vec::new();
    push_str(&mut v, a);
    push_str(&mut v, b);
    push_str(&mut v, c);
    string_from_chars(&v)
}

/// A copy of a string.
fn own(s: &str) -> (r: String)
    ensures
        r@ == s@,
{
    string_from_chars(&chars_of(s))
}

/// The `Argument` error for an invalid mode of an internal builtin.
fn invalid_mode(st: &State, mode: i64) -> (e: Exception)
    ensures
        e.error@ == ArgumentError@,
        e.msg@ == "invalid mode "@ + int_digits(mode as int),
{
    let mut v: Vec<char> = Vec::new();
    push_str(&mut v, "invalid mode ");
    push_i64(&mut v, mode);
    st.raise(ArgumentError, string_from_chars(&v).as_str())
}

/// The field arguments of a `type` declaration, as syntax trees.
pub open spec fn type_fields(args: Seq<Argument>) -> Seq<crate::argument::ArgV> {
    args.drop_first().map_values(|a: Argument| a@)
}

/// Whether a `type` declaration is accepted: a variable naming the type, then
/// each field as a variable, once.
pub open spec fn type_args_ok(args: Seq<Argument>) -> bool {
    &&& args.len() > 0
    &&& args[0]@ is Variable
    &&& forall|j: int| 0 <= j < type_fields(args).len() ==> !crate::builtins::ty::first_bad_field(type_fields(args), j)
}

/// What an accepted `type` declaration does: it gives `null`, binds the
/// type's name, in the current scope, to a constructor taking one argument
/// per field (in order) that builds objects with the next type id, and
/// advances that id; no other name changes.
pub open spec fn type_declared(args: Seq<Argument>, before: State, after: State, r: Result<Atom, Exception>) -> bool {
    let name = args[0]@->Variable_0;
    let fs = type_fields(args);
    &&& r == Ok::<Atom, Exception>(Atom::Null)
    &&& after.next_type_id == before.next_type_id.wrapping_add(1)
    &&& st_lookup(after.storage@, name) matches Some(Atom::Function(f)) && {
        &&& f.0.argc == Some(fs.len() as usize)
        &&& f.0.body matches FunctionBody::Constructor { fields, ty_id } && {
            &&& ty_id == before.next_type_id
            &&& fields@.len() == fs.len()
            &&& forall|j: int| 0 <= j < fs.len() ==> (#[trigger] fields@[j])@ == fs[j]->Variable_0
        }
        &&& after.storage@ == st_insert(before.storage@, name, Atom::Function(f), before.storage.scope() as usize)
    }
}

/// What `.` gives for an object that is a literal or a bound variable and a
/// field named by a variable: the field's value, or a `Name` error where the
/// object has no such field.
pub open spec fn getattr_outcome(args: Seq<Argument>, before: State, r: Result<Atom, Exception>) -> bool {
    args.len() == 2 && before.exit_unwind_value.is_none() && !(args[0] is FunctionCall) && args[1] is Variable
        && (leaf_value(args[0], before) matches Some(Atom::Object(o)) && keys_sorted(o.data@)) ==> {
        let o = leaf_value(args[0], before).unwrap()->Object_0;
        let field = args[1]->Variable_0@;
        match field_lookup(o.data@, field) {
            Some(v) => r == Ok::<Atom, Exception>(v),
            None => r matches Err(e) && e.error@ == NameError@ && e.msg@ == "object has no field named `"@ + field + "`"@,
        }
    }
}

/// What `->` gives for an object and a new value that are literals or bound
/// variables and a field named by a variable: the object with that field set
/// to the value (its other fields and its type id as they were), or a `Name`
/// error where the object has no such field.
pub open spec fn setattr_outcome(args: Seq<Argument>, before: State, r: Result<Atom, Exception>) -> bool {
    args.len() == 3 && before.exit_unwind_value.is_none() && !(args[0] is FunctionCall) && args[1] is Variable
        && !(args[2] is FunctionCall) && leaf_value(args[2], before) is Some
        && (leaf_value(args[0], before) matches Some(Atom::Object(o)) && keys_sorted(o.data@)) ==> {
        let o = leaf_value(args[0], before).unwrap()->Object_0;
        let field = args[1]->Variable_0@;
        let value = leaf_value(args[2], before).unwrap();
        match field_lookup(o.data@, field) {
            Some(_) => r matches Ok(Atom::Object(p)) && {
                &&& p.ty_id == o.ty_id
                &&& field_lookup(p.data@, field) == Some(value)
                &&& forall|x: Seq<char>| x != field ==> #[trigger] field_lookup(p.data@, x) == field_lookup(o.data@, x)
            },
            None => r matches Err(e) && e.error@ == NameError@ && e.msg@ == "object has no field named `"@ + field + "`"@,
        }
    }
}

/// The parameters that the arguments of `def` between the name and the body
/// declare.
pub open spec fn def_params(args: Seq<Argument>) -> Seq<crate::argument::ArgV> {
    args.subrange(1, args.len() - 1).map_values(|a: Argument| a@)
}

/// Whether a `def` is accepted: a variable to bind, then parameters that are
/// variables, a variadic one only last, then the body.
pub open spec fn def_args_ok(args: Seq<Argument>) -> bool {
    &&& args.len() >= 2
    &&& args[0]@ is Variable
    &&& crate::builtins::fn_def::all_variables(def_params(args))
    &&& crate::builtins::fn_def::variadic_last(crate::builtins::fn_def::params_of(def_params(args)))
}

/// What an accepted `def` does: it gives `null` and binds the name, in the
/// current scope, to a function with the documentation of the call, the
/// declared parameters and the body; no other name changes.
pub open spec fn def_declared(args: Seq<Argument>, before: State, after: State, r: Result<Atom, Exception>) -> bool {
    let ps = crate::builtins::fn_def::params_of(def_params(args));
    &&& r == Ok::<Atom, Exception>(Atom::Null)
    &&& st_lookup(after.storage@, args[0]@->Variable_0) matches Some(Atom::Function(f)) && {
        &&& f.0.doc@ == match before.current_doc_comment {
            Some(c) => c@,
            None => Seq::<char>::empty(),
        }
        &&& f.0.argc == crate::builtins::fn_def::defined_argc(ps)
        &&& f.0.body matches FunctionBody::Defined { params, body: b } && {
            &&& b@ == args[args.len() - 1]@
            &&& params@.len() == ps.len()
            &&& forall|k: int| 0 <= k < ps.len() ==> crate::builtins::fn_def::param_matches(#[trigger] params@[k], ps[k])
        }
        &&& after.storage@ == st_insert(before.storage@, args[0]@->Variable_0, Atom::Function(f), before.storage.scope() as usize)
    }
}

/// What `eval` gives for the code `code`: what running it as a program of
/// its own gives (see [`program_outcome`]), in a fresh state where only the
/// builtins are bound, within the nesting limit `depth`.
pub open spec fn eval_code_outcome(code: Seq<char>, depth: int, r: Result<Atom, Exception>) -> bool {
    exists|env: Map<Seq<char>, AtomV>, f: Rc<String>, g: Set<Seq<char>>|
        builtin_env(env) && f@ == Seq::<char>::empty() && #[trigger] crate::state::outcome_value(
            program_outcome(code, f, false, depth, env, (false, 0nat, g)),
            r,
        )
}

/// What the builtin at index `k` gives, for the calls whose result does not
/// depend on running other calls: `_` with no arguments, `__builtin_cr`, the
/// argument errors of `def` and `fn`, `=` and `global` with a variable and a
/// literal, an accepted `type` declaration (see [`type_declared`]) or `def`
/// (see [`def_declared`]), and
/// `input` and the clock builtins, which give what
/// [`input_result`] and [`clock_result`] say of some line read and some time
/// read (what the outside world gives is not known here).
pub open spec fn builtin_outcome(k: usize, args: Seq<Argument>, before: State, after: State, r: Result<Atom, Exception>) -> bool {
    &&& (k == 0 && args.len() == 0 ==> r == Ok::<Atom, Exception>(Atom::Null))
    &&& (k == 24 && args.len() == 0 ==> r == Ok::<Atom, Exception>(Atom::Char('\r')))
    &&& (k == 17 && args.len() < 2 ==> (r matches Err(e) && e.error@ == ArgumentError@))
    &&& (k == 18 && args.len() == 0 ==> (r matches Err(e) && e.error@ == ArgumentError@ && e.msg@ == "`fn` invocation is missing body"@))
    &&& (k == 1 && args.len() == 2 && before.exit_unwind_value.is_none() && (args[0] matches Argument::Variable(name, _)) && (args[1] matches Argument::Atom(a, _)) ==> r == Ok::<Atom, Exception>(Atom::Null) && after.storage@ == st_insert(before.storage@, args[0]->Variable_0@, args[1]->Atom_0, before.storage.scope() as usize))
    &&& (k == 25 && type_args_ok(args) ==> type_declared(args, before, after, r))
    &&& (k == 17 && def_args_ok(args) ==> def_declared(args, before, after, r))
    &&& (k == 13 && args.len() == 0 ==> exists|read: Result<String, String>| #[trigger] input_result(read, r))
    &&& (k == 20 && args.len() == 0 ==> exists|d: Option<(u64, u32)>|
        #[trigger] clock_result(false, d, r) && (d matches Some(t) ==> t.1 < 1_000_000_000))
    &&& (k == 21 && args.len() == 0 ==> exists|d: Option<(u64, u32)>|
        #[trigger] clock_result(true, d, r) && (d matches Some(t) ==> t.1 < 1_000_000_000))
    &&& (k == 7 && args.len() == 2 && before.exit_unwind_value.is_none() && (args[0] matches Argument::Variable(name, _)) && (args[1] matches Argument::Atom(a, _)) ==> r == Ok::<Atom, Exception>(Atom::Null) && after.storage@ == before.storage@.insert(args[0]->Variable_0@, StoredV::Global(args[1]->Atom_0)))
}

/// A simple `def` has accepted arguments.
proof fn lemma_def_args(args: Seq<Argument>, av: Seq<crate::argument::ArgV>)
    requires
        av.len() == args.len(),
        forall|k: int| 0 <= k < args.len() ==> #[trigger] av[k] == args[k]@,
        av.len() >= 2,
        av[0] is Variable,
        crate::semantics::defines(av.subrange(1, av.len() - 1)),
    ensures
        def_args_ok(args),
        def_params(args) == av.subrange(1, av.len() - 1),
{
    assert(def_params(args) =~= av.subrange(1, av.len() - 1));
}

/// The function that an accepted `def` or `fn` binds or gives is the one
/// [`crate::semantics::defined_fn`] describes.
proof fn lemma_defined_fn_view(f: Function, doc: Seq<char>, names: Seq<crate::argument::ArgV>, body: crate::argument::ArgV)
    requires
        f.0.doc@ == doc,
        f.0.argc == crate::builtins::fn_def::defined_argc(crate::builtins::fn_def::params_of(names)),
        f.0.body matches FunctionBody::Defined { params, body: b } && {
            &&& b@ == body
            &&& params@.len() == crate::builtins::fn_def::params_of(names).len()
            &&& forall|k: int|
                0 <= k < crate::builtins::fn_def::params_of(names).len() ==> crate::builtins::fn_def::param_matches(
                    #[trigger] params@[k],
                    crate::builtins::fn_def::params_of(names)[k],
                )
        },
    ensures
        Atom::Function(f)@ == crate::semantics::defined_fn(doc, names, body),
{
    if let FunctionBody::Defined { params, body: b } = f.0.body {
        let ps = crate::builtins::fn_def::params_of(names);
        assert(crate::atom::params_view(params@) =~= ps) by {
            assert forall|k: int| 0 <= k < ps.len() implies #[trigger] crate::atom::params_view(params@)[k] == ps[k] by {
                assert(crate::builtins::fn_def::param_matches(params@[k], ps[k]));
            }
        }
    }
}

/// Calls the builtin at index `k` of the table with unevaluated arguments.
/// The number of arguments is checked against the table first.
#[verifier::rlimit(100)]
#[verifier::spinoff_prover]
pub fn call_builtin<H: Host>(k: usize, args: &[Argument], st: &mut State, host: &mut H, depth: u64) -> (r:
    Result<Atom, Exception>)
    requires
        old(st).storage.wf(),
    ensures
        final(st).storage.wf(),
        final(st).storage.scope() == old(st).storage.scope(),
        final(st).backtrace@ == old(st).backtrace@,
        k >= builtin_argcs().len() ==> r is Err,
        k < builtin_argcs().len() && (builtin_argcs()[k as int] matches Some(n) && n != args@.len())
            ==> r is Err,
        depth > 0 ==> builtin_outcome(k, args@, *old(st), *final(st), r),
        depth > 2 && k == 35 && all_known(args@, *old(st)) ==> list_api_values(known_vals(args@, *old(st)), r),
        depth > 1 && k == 26 ==> getattr_outcome(args@, *old(st), r),
        depth > 1 && k == 6 && args@.len() == 1 && old(st).exit_unwind_value.is_none() && (args@[0] matches Argument::Atom(a, _)
            && crate::atom::as_string_spec(a@) is Some) ==> eval_code_outcome(
            crate::atom::as_string_spec(args@[0]->Atom_0@).unwrap(),
            depth - 1,
            r,
        ),
        depth > 1 && k == 27 ==> setattr_outcome(args@, *old(st), r),
        depth > 1 && k == 4 && args@.len() == 2 && all_known(args@, *old(st)) && crate::atom::as_string_spec(
            known_vals(args@, *old(st))[0]@,
        ) is Some && crate::atom::as_string_spec(known_vals(args@, *old(st))[1]@) is Some ==> (r matches Err(
            e,
        ) && e.error@ == crate::atom::as_string_spec(known_vals(args@, *old(st))[0]@).unwrap() && e.msg@
            == crate::atom::as_string_spec(known_vals(args@, *old(st))[1]@).unwrap()),
        old(st).exit_unwind_value.is_none() && old(st).storage.well_scoped() && depth >= reserve(old(st).storage.scope()) + 5 * args_size(
            args_view(args@, args@.len()),
            args@.len(),
        ) + 2 ==> simple_result(
            simple_builtin(k, args_view(args@, args@.len()), env_of(old(st).storage@), ctx_of(*old(st)), doc_of(*old(st))),
            *old(st),
            *final(st),
            r,
        ),
    decreases depth,
{
    if depth == 0 {
        return Err(too_deep(st));
    }
    let d = depth - 1;
    if k >= 37 {
        return Err(st.raise(NameError, "unknown builtin function"));
    }
    let name: Option<&str> = match &st.current_fn_name {
        Some(n) => Some(n.as_str()),
        None => None,
    };
    proof {
        lemma_args_view(args@, args@.len());
        assert(builtin_argcs()[0] is None);
        assert(builtin_argcs()[1] == Some(2usize));
        assert(builtin_argcs()[36] == Some(0usize));
    }
    let ghost av = args_view(args@, args@.len());
    let ghost env0 = env_of(old(st).storage@);
    let ghost cx = ctx_of(*old(st));
    let ghost size = args_size(av, args@.len());
    check_argc(builtin_argc(k), args.len(), name, st.backtrace.as_slice())?;
    if k == 0 {
        // `_`: evaluates the arguments in turn and returns the last.
        if args.len() == 0 {
            return Ok(Atom::Null);
        }
        eval_in_turn(args, st, host, d)
    } else if k == 1 {
        // `=`: assigns a value to a variable in the current scope.
        let var = args[0].variable(
            "invalid assignment: tried to assign to a non-variable",
            st.backtrace.as_slice(),
        )?;
        let var = own(var);
        proof {
            if args@.len() == 2 {
                lemma_args_size(av, av.len(), 1);
            }
        }
        let value = eval(&args[1], st, host, d)?;
        let ghost before = st.storage@;
        st.storage.insert(var.as_str(), value);
        proof {
            lemma_env_insert(before, var@, value, st.storage.scope() as usize);
            lemma_globals_insert(before, var@, value, st.storage.scope() as usize);
            lemma_scoped_change_insert(before, var@, value, old(st).storage.scope() as usize);
            if old(st).exit_unwind_value.is_none() && old(st).storage.well_scoped() && depth >= reserve(old(st).storage.scope()) + 5 * size + 2 && simple_builtin(k, av, env0, cx, doc_of(*old(st))) is Some {
                lemma_scoped_change_trans(old(st).storage@, before, st.storage@, old(st).storage.scope() as usize);
            }
        }
        Ok(Atom::Null)
    } else if k == 2 {
        // `ifelse`
        let ghost ok = old(st).exit_unwind_value.is_none() && old(st).storage.well_scoped() && depth >= reserve(old(st).storage.scope()) + 5 * size + 2 && simple_builtin(
            k,
            av,
            env0,
            cx,
            doc_of(*old(st)),
        ) is Some;
        proof {
            lemma_args_size(av, av.len(), 0);
            lemma_args_size(av, av.len(), 1);
            lemma_args_size(av, av.len(), 2);
        }
        let c = eval_bool(&args[0], st, host, d)?;
        let ghost mid = *st;
        let r = if c {
            eval(&args[1], st, host, d)
        } else {
            eval(&args[2], st, host, d)
        };
        proof {
            if ok {
                lemma_scoped_change_trans(old(st).storage@, mid.storage@, st.storage@, old(st).storage.scope() as usize);
            }
        }
        r
    } else if k == 3 {
        // `while`
        proof {
            lemma_args_size(av, av.len(), 0);
            lemma_args_size(av, av.len(), 1);
            assert(args_size(av, 0) == 0);
            assert(args_size(av, 1) == arg_size(av[0]));
            assert(args_size(av, 2) == arg_size(av[0]) + arg_size(av[1]));
        }
        while_loop(args, st, host, d)
    } else if k == 4 {
        // `error`: raises an exception of the given kind and message.
        let kind = eval_as_string(&args[0], st, host, d)?;
        let msg = eval_as_string(&args[1], st, host, d)?;
        Err(st.raise(kind.as_str(), msg.as_str()))
    } else if k == 5 {
        // `exit`
        let value = eval(&args[0], st, host, d)?;
        st.exit_unwind_value = Some(Ok(value));
        Ok(Atom::Null)
    } else if k == 6 {
        // `eval`: runs code in a fresh state.
        let code = eval_as_string(&args[0], st, host, d)?;
        let mut sub = State::new(st.stl.clone()).with_code(code.as_str());
        sub.file_directory = Directory::FromEval;
        let ghost sub0 = sub;
        let r = sub.run_nested(host, d);
        proof {
            let f = choose|f: Rc<String>|
                f@ == path_text(sub0.current_file_path) && #[trigger] run_result(
                    run_outcome(sub0, f, d as int),
                    sub0,
                    sub,
                    r,
                );
            assert(crate::state::outcome_value(
                program_outcome(code@, f, false, d as int, env_of(sub0.storage@), ctx_of(sub0)),
                r,
            ));
        }
        r
    } else if k == 7 {
        // `global`
        let var = args[0].variable("`global(2)` expects a variable argument", st.backtrace.as_slice())?;
        let var = own(var);
        let atom = eval(&args[1], st, host, d)?;
        st.storage.add_global(var.as_str(), atom);
        Ok(Atom::Null)
    } else if k == 8 {
        proof {
            if args@.len() > 0 {
                lemma_args_size(av, av.len(), 0);
            }
        }
        try_except(args, st, host, d)
    } else if k == 9 {
        // `printable`
        proof {
            lemma_args_size(av, av.len(), 0);
        }
        let v = eval(&args[0], st, host, d)?;
        Ok(Atom::new_string(v.to_string().as_str()))
    } else if k == 10 {
        // `for_in`
        proof {
            lemma_args_size(av, av.len(), 0);
            lemma_args_size(av, av.len(), 2);
            assert(args_size(av, 0) == 0);
            assert(args_size(av, 1) == arg_size(av[0]));
            assert(args_size(av, 2) == arg_size(av[0]) + arg_size(av[1]));
            assert(args_size(av, 3) == arg_size(av[0]) + arg_size(av[1]) + arg_size(av[2]));
        }
        for_loop(args, st, host, d)
    } else if k == 11 {
        // `doc`
        proof {
            lemma_args_size(av, av.len(), 0);
        }
        let f = eval_function(&args[0], st, host, d)?;
        Ok(Atom::new_string(f.doc()))
    } else if k == 12 {
        // `argc`
        proof {
            lemma_args_size(av, av.len(), 0);
        }
        let f = eval_function(&args[0], st, host, d)?;
        match f.argc() {
            Some(n) => int_from_usize(n, st.backtrace.as_slice()),
            None => Ok(Atom::Null),
        }
    } else if k == 13 {
        // `input`: one line of the standard input, without its line break.
        let line = host.read_line();
        input_value(line, st.backtrace.as_slice())
    } else if k == 14 {
        // `write`
        proof {
            lemma_args_size(av, av.len(), 0);
        }
        let s = eval(&args[0], st, host, d)?.to_string();
        host.write_stdout(s.as_str());
        Ok(Atom::Null)
    } else if k == 15 {
        // `||`
        let ghost ok = old(st).exit_unwind_value.is_none() && old(st).storage.well_scoped() && depth >= reserve(old(st).storage.scope()) + 5 * size + 2 && simple_builtin(
            k,
            av,
            env0,
            cx,
            doc_of(*old(st)),
        ) is Some;
        proof {
            lemma_args_size(av, av.len(), 0);
            lemma_args_size(av, av.len(), 1);
        }
        if eval_bool(&args[0], st, host, d)? {
            Ok(Atom::Bool(true))
        } else {
            let ghost mid = *st;
            let b = eval_bool(&args[1], st, host, d)?;
            proof {
                if ok {
                    lemma_scoped_change_trans(old(st).storage@, mid.storage@, st.storage@, old(st).storage.scope() as usize);
                }
            }
            Ok(Atom::Bool(b))
        }
    } else if k == 16 {
        // `&&`
        let ghost ok = old(st).exit_unwind_value.is_none() && old(st).storage.well_scoped() && depth >= reserve(old(st).storage.scope()) + 5 * size + 2 && simple_builtin(
            k,
            av,
            env0,
            cx,
            doc_of(*old(st)),
        ) is Some;
        proof {
            lemma_args_size(av, av.len(), 0);
            lemma_args_size(av, av.len(), 1);
        }
        if eval_bool(&args[0], st, host, d)? {
            let ghost mid = *st;
            let b = eval_bool(&args[1], st, host, d)?;
            proof {
                if ok {
                    lemma_scoped_change_trans(old(st).storage@, mid.storage@, st.storage@, old(st).storage.scope() as usize);
                }
            }
            Ok(Atom::Bool(b))
        } else {
            Ok(Atom::Bool(false))
        }
    } else if k == 17 {
        proof {
            if simple_builtin(k, av, env0, cx, doc_of(*old(st))) is Some {
                lemma_def_args(args@, av);
            }
        }
        let ghost before = *st;
        let r = def(args, st);
        proof {
            if simple_builtin(k, av, env0, cx, doc_of(*old(st))) is Some {
                let f = st_lookup(st.storage@, av[0]->Variable_0).unwrap()->Function_0;
                lemma_defined_fn_view(f, doc_of(before), av.subrange(1, av.len() - 1), av[av.len() - 1]);
                lemma_env_insert(before.storage@, av[0]->Variable_0, Atom::Function(f), before.storage.scope() as usize);
                lemma_globals_insert(before.storage@, av[0]->Variable_0, Atom::Function(f), before.storage.scope() as usize);
                lemma_scoped_change_insert(before.storage@, av[0]->Variable_0, Atom::Function(f), before.storage.scope() as usize);
            }
        }
        r
    } else if k == 18 {
        // `fn`
        if args.len() == 0 {
            return Err(st.raise(ArgumentError, "`fn` invocation is missing body"));
        }
        let n = args.len();
        let doc = current_doc(st);
        proof {
            if simple_builtin(k, av, env0, cx, doc_of(*old(st))) is Some {
                assert(args@.subrange(0, n - 1).map_values(|a: Argument| a@) =~= av.subrange(0, av.len() - 1));
                lemma_scoped_change_refl(st.storage@, st.storage.scope() as usize);
            }
        }
        let r = define_function(&args[n - 1], &args[0..n - 1], doc.as_str(), st.backtrace.as_slice());
        proof {
            if simple_builtin(k, av, env0, cx, doc_of(*old(st))) is Some {
                lemma_defined_fn_view(r->Ok_0->Function_0, doc@, av.subrange(0, av.len() - 1), av[av.len() - 1]);
            }
        }
        r
    } else if k == 19 {
        // `__builtin_print_catch`
        match eval(&args[0], st, host, d) {
            Ok(_) => Err(
                st.raise(ArgumentError, "`__builtin_print_catch` arg should cause exception"),
            ),
            Err(e) => {
                host.write_stderr(e.to_string().as_str());
                host.write_stderr("\n");
                Ok(Atom::Null)
            },
        }
    } else if k == 20 || k == 21 {
        // `__builtin_now`, `__builtin_now_nanos_part`
        let now = epoch_duration();
        clock_value(k == 21, now, st.backtrace.as_slice())
    } else if k == 22 {
        // `__builtin_atom_eq`
        let ghost ok = old(st).exit_unwind_value.is_none() && old(st).storage.well_scoped() && depth >= reserve(old(st).storage.scope()) + 5 * size + 2 && simple_builtin(
            k,
            av,
            env0,
            cx,
            doc_of(*old(st)),
        ) is Some;
        proof {
            lemma_args_size(av, av.len(), 0);
            lemma_args_size(av, av.len(), 1);
        }
        let a = eval(&args[0], st, host, d)?;
        let ghost mid = *st;
        let b = eval(&args[1], st, host, d)?;
        proof {
            if ok {
                lemma_scoped_change_trans(old(st).storage@, mid.storage@, st.storage@, old(st).storage.scope() as usize);
            }
        }
        Ok(Atom::Bool(atoms_equal(&a, &b)))
    } else if k == 23 {
        proof {
            assert(av == args_view(args@, 3));
        }
        compare(args, st, host, d)
    } else if k == 24 {
        // `__builtin_cr`
        Ok(Atom::Char('\r'))
    } else if k == 25 {
        // `type`
        let (ty_name, fields) = type_(args, st.backtrace.as_slice())?;
        let id = st.make_type_id();
        let ctor = type_constructor(fields, id);
        let ghost ca: Atom = ctor;
        let ghost before = st.storage@;
        st.storage.insert(ty_name.as_str(), ctor);
        proof {
            crate::storage::law_lookup_after_insert(before, ty_name@, ca, st.storage.scope() as usize);
        }
        Ok(Atom::Null)
    } else if k == 26 {
        // `.`
        let obj = eval_object(&args[0], st, host, d)?;
        let field = args[1].variable(
            "`.` takes a field identifier as second argument",
            st.backtrace.as_slice(),
        )?;
        get_field(&obj, field, st.backtrace.as_slice())
    } else if k == 27 {
        // `->`
        let obj = eval_object(&args[0], st, host, d)?;
        let field = args[1].variable(
            "`.` takes a field identifier as second argument",
            st.backtrace.as_slice(),
        )?;
        let field = own(field);
        let value = eval(&args[2], st, host, d)?;
        set_field(&obj, field.as_str(), value, st.backtrace.as_slice())
    } else if k == 28 {
        call_method(args, st, host, d)
    } else if k == 29 {
        // `type_id`
        proof {
            lemma_args_size(av, av.len(), 0);
        }
        let v = eval(&args[0], st, host, d)?;
        Ok(Atom::Int(v.ty_id()))
    } else if k == 30 {
        // `default_value`
        let type_ident = args[0].variable(
            "`default_value` takes a type identifier as first argument",
            st.backtrace.as_slice(),
        )?;
        let type_ident = own(type_ident);
        let field = args[1].variable(
            "`default_value` takes a field identifier as second argument",
            st.backtrace.as_slice(),
        )?;
        let field = own(field);
        let value = eval(&args[2], st, host, d)?;
        let old_ctor = st.get_function(type_ident.as_str())?;
        let new_ctor = wrap_ctor(old_ctor, field, value);
        st.storage.insert(type_ident.as_str(), Atom::Function(new_ctor));
        Ok(Atom::Null)
    } else if k == 31 {
        // `impl`
        if args.len() < 3 {
            return Err(st.raise(ArgumentError, "too few arguments passed to `impl`"));
        }
        let type_ident = args[0].variable(
            "`impl` takes a type identifier as first argument",
            st.backtrace.as_slice(),
        )?;
        let type_ident = own(type_ident);
        let field = args[1].variable(
            "`impl` takes a field identifier as second argument",
            st.backtrace.as_slice(),
        )?;
        let field = own(field);
        let n = args.len();
        let doc = current_doc(st);
        let func = define_function(&args[n - 1], &args[2..n - 1], doc.as_str(), st.backtrace.as_slice())?;
        let old_ctor = st.get_function(type_ident.as_str())?;
        let new_ctor = wrap_ctor(old_ctor, field, func);
        st.storage.insert(type_ident.as_str(), Atom::Function(new_ctor));
        Ok(Atom::Null)
    } else if k == 32 {
        // `__builtin_int_math`
        let ghost ok = old(st).exit_unwind_value.is_none() && old(st).storage.well_scoped() && depth >= reserve(old(st).storage.scope()) + 5 * size + 2 && simple_builtin(
            k,
            av,
            env0,
            cx,
            doc_of(*old(st)),
        ) is Some;
        proof {
            lemma_args_size(av, av.len(), 0);
            lemma_args_size(av, av.len(), 1);
            lemma_args_size(av, av.len(), 2);
        }
        let mode = eval_int(&args[0], st, host, d)?;
        let ghost s1 = *st;
        let lhs = eval_int(&args[1], st, host, d)?;
        let ghost s2 = *st;
        let rhs = eval_int(&args[2], st, host, d)?;
        proof {
            if ok {
                lemma_scoped_change_trans(old(st).storage@, s1.storage@, s2.storage@, old(st).storage.scope() as usize);
                lemma_scoped_change_trans(old(st).storage@, s2.storage@, st.storage@, old(st).storage.scope() as usize);
            }
        }
        if mode < 0 || mode > 5 {
            return Err(invalid_mode(st, mode));
        }
        builtin_int_math(mode_byte(mode), lhs, rhs, st.backtrace.as_slice())
    } else if k == 33 {
        // `__builtin_int_shift`
        let ghost ok = old(st).exit_unwind_value.is_none() && old(st).storage.well_scoped() && depth >= reserve(old(st).storage.scope()) + 5 * size + 2 && simple_builtin(
            k,
            av,
            env0,
            cx,
            doc_of(*old(st)),
        ) is Some;
        proof {
            lemma_args_size(av, av.len(), 0);
            lemma_args_size(av, av.len(), 1);
            lemma_args_size(av, av.len(), 2);
        }
        let mode = eval_int(&args[0], st, host, d)?;
        if mode < 0 || mode > 1 {
            return Err(invalid_mode(st, mode));
        }
        let ghost s1 = *st;
        let lhs = eval_int(&args[1], st, host, d)?;
        let ghost s2 = *st;
        let rhs = eval_int(&args[2], st, host, d)?;
        proof {
            if ok {
                lemma_scoped_change_trans(old(st).storage@, s1.storage@, s2.storage@, old(st).storage.scope() as usize);
                lemma_scoped_change_trans(old(st).storage@, s2.storage@, st.storage@, old(st).storage.scope() as usize);
            }
        }
        builtin_int_shift(mode_byte(mode), lhs, rhs, st.backtrace.as_slice())
    } else if k == 34 {
        import(args, st, host, d)
    } else if k == 35 {
        list_api(args, st, host, d)
    } else {
        prelude_import(st, host, d)
    }
}

/// The outcome of a simple `for_in` over the list its first argument gives
/// (see [`simple_for`]).
pub open spec fn simple_for_in(args: Seq<Argument>, env: Map<Seq<char>, AtomV>, cx: Ctx) -> Outcome {
    match simple_value(args[0]@, env, cx) {
        Some((AtomV::List(items), e, None)) => if args[1] is Variable {
            simple_for(items, args[1]->Variable_0@, args[2]@, e, cx, 0)
        } else {
            None
        },
        _ => None,
    }
}

/// `for_in`: evaluates the body once for each element of the list, with the
/// element assigned to the loop variable.
fn for_loop<H: Host>(args: &[Argument], st: &mut State, host: &mut H, depth: u64) -> (r: Result<
    Atom,
    Exception,
>)
    requires
        old(st).storage.wf(),
        args@.len() == 3,
    ensures
        final(st).storage.wf(),
        final(st).storage.scope() == old(st).storage.scope(),
        final(st).backtrace@ == old(st).backtrace@,
        old(st).exit_unwind_value.is_none() && old(st).storage.well_scoped() && depth >= reserve(old(st).storage.scope()) + 5 * (arg_size(args@[0]@) + arg_size(args@[2]@)) + 2
            ==> simple_result(simple_for_in(args@, env_of(old(st).storage@), ctx_of(*old(st))), *old(st), *final(st), r),
    decreases depth,
{
    if depth == 0 {
        return Err(too_deep(st));
    }
    let d = depth - 1;
    let ghost env0 = env_of(old(st).storage@);
    let ghost cx = ctx_of(*old(st));
    let ghost ok = old(st).exit_unwind_value.is_none() && old(st).storage.well_scoped() && depth >= reserve(old(st).storage.scope()) + 5 * (arg_size(args@[0]@) + arg_size(
        args@[2]@,
    )) + 2 && simple_for_in(args@, env0, cx) is Some;
    let list = eval_list(&args[0], st, host, d)?;
    let loop_var = args[1].variable("invalid loop variable given to `for_in`", st.backtrace.as_slice())?;
    let loop_var = own(loop_var);
    let ghost items = crate::atom::atoms_view(list.0@, list.0@.len());
    let ghost e1 = env_of(st.storage@);
    proof {
        crate::atom::lemma_atoms_view(list.0@, list.0@.len());
        lemma_scoped_change_refl(st.storage@, old(st).storage.scope() as usize);
    }
    let mut i: usize = 0;
    while i < list.len()
        invariant
            st.storage.wf(),
            st.storage.scope() == old(st).storage.scope(),
            st.backtrace@ == old(st).backtrace@,
            d < depth,
            d == depth - 1,
            args@.len() == 3,
            0 <= i <= list.0@.len(),
            items == crate::atom::atoms_view(list.0@, list.0@.len()),
            items.len() == list.0@.len(),
            forall|j: int| 0 <= j < items.len() ==> #[trigger] items[j] == list.0@[j]@,
            args@[1] is Variable,
            loop_var@ == args@[1]->Variable_0@,
            cx == ctx_of(*old(st)),
            env0 == env_of(old(st).storage@),
            ok == (old(st).exit_unwind_value.is_none() && old(st).storage.well_scoped() && depth >= reserve(old(st).storage.scope()) + 5 * (arg_size(args@[0]@) + arg_size(
                args@[2]@,
            )) + 2 && simple_for_in(args@, env0, cx) is Some),
            ok ==> d >= reserve(old(st).storage.scope()) + 5 * arg_size(args@[2]@),
            ok ==> simple_for_in(args@, env0, cx) == simple_for(items, loop_var@, args@[2]@, env_of(st.storage@), cx, i as nat),
            ok ==> simple_for_in(args@, env0, cx) is Some,
            ok ==> st.exit_unwind_value.is_none() && st.file_directory == old(st).file_directory
                && scoped_change(old(st).storage@, st.storage@, old(st).storage.scope() as usize),
            ok ==> st.storage.well_scoped() && globals_of(st.storage@) == globals_of(old(st).storage@),
        decreases list.0@.len() - i,
    {
        let ghost before = st.storage@;
        proof {
            if ok {
                assert(simple_for(items, loop_var@, args@[2]@, env_of(before), cx, i as nat) is Some);
            }
        }
        let a = list.get(i).clone();
        st.storage.insert(loop_var.as_str(), a);
        proof {
            lemma_env_insert(before, loop_var@, a, st.storage.scope() as usize);
            lemma_globals_insert(before, loop_var@, a, st.storage.scope() as usize);
            lemma_scoped_change_insert(before, loop_var@, a, old(st).storage.scope() as usize);
            if ok {
                lemma_scoped_change_trans(old(st).storage@, before, st.storage@, old(st).storage.scope() as usize);
            }
        }
        let ghost s1 = *st;
        proof {
            if ok {
                assert(a@ == items[i as int]);
                assert(env_of(s1.storage@) == env_of(before).insert(loop_var@, items[i as int]));
                assert(ctx_of(s1) == cx);
            }
        }
        eval(&args[2], st, host, d)?;
        proof {
            if ok {
                lemma_scoped_change_trans(old(st).storage@, s1.storage@, st.storage@, old(st).storage.scope() as usize);
            }
        }
        i = i + 1;
    }
    Ok(Atom::Null)
}

/// `while`: evaluates the body for as long as the condition, a boolean,
/// holds (see [`simple_while`]), within a budget of rounds.
fn while_loop<H: Host>(args: &[Argument], st: &mut State, host: &mut H, depth: u64) -> (r: Result<
    Atom,
    Exception,
>)
    requires
        old(st).storage.wf(),
        args@.len() == 2,
    ensures
        final(st).storage.wf(),
        final(st).storage.scope() == old(st).storage.scope(),
        final(st).backtrace@ == old(st).backtrace@,
        old(st).exit_unwind_value.is_none() && old(st).storage.well_scoped() && depth >= reserve(old(st).storage.scope()) + 5 * (arg_size(args@[0]@) + arg_size(args@[1]@)) + 1
            ==> simple_result(
            simple_while(args@[0]@, args@[1]@, env_of(old(st).storage@), ctx_of(*old(st)), 0xffff_ffff_ffff_ffff),
            *old(st),
            *final(st),
            r,
        ),
    decreases depth,
{
    if depth == 0 {
        return Err(too_deep(st));
    }
    let d = depth - 1;
    let ghost av = args_view(args@, args@.len());
    let ghost env0 = env_of(old(st).storage@);
    let ghost cx = ctx_of(*old(st));
    proof {
        lemma_args_view(args@, args@.len());
    }
    let ghost size = arg_size(av[0]) + arg_size(av[1]);
    // `while`
    let ghost ok = old(st).exit_unwind_value.is_none() && old(st).storage.well_scoped() && depth >= reserve(old(st).storage.scope()) + 5 * size + 1 && simple_while(
        av[0],
        av[1],
        env0,
        cx,
        0xffff_ffff_ffff_ffff,
    ) is Some;
    let mut budget: u64 = 0xffff_ffff_ffff_ffff;
    while budget > 0
        invariant
            st.storage.wf(),
            st.storage.scope() == old(st).storage.scope(),
            st.backtrace@ == old(st).backtrace@,
            d < depth,
            d == depth - 1,
            args@.len() == 2,
            av == args_view(args@, args@.len()),
            av.len() == 2,
            av[0] == args@[0]@,
            av[1] == args@[1]@,
            size == arg_size(av[0]) + arg_size(av[1]),
            cx == ctx_of(*old(st)),
            env0 == env_of(old(st).storage@),
            ok == (old(st).exit_unwind_value.is_none() && old(st).storage.well_scoped() && depth >= reserve(old(st).storage.scope()) + 5 * size + 1 && simple_while(
                av[0],
                av[1],
                env0,
                cx,
                0xffff_ffff_ffff_ffff,
            ) is Some),
            ok ==> depth >= reserve(old(st).storage.scope()) + 5 * size + 1,
            ok ==> simple_while(av[0], av[1], env0, cx, 0xffff_ffff_ffff_ffff) == simple_while(
                av[0],
                av[1],
                env_of(st.storage@),
                cx,
                budget as nat,
            ),
            ok ==> simple_while(av[0], av[1], env0, cx, 0xffff_ffff_ffff_ffff) is Some,
            ok ==> st.exit_unwind_value.is_none() && st.file_directory == old(st).file_directory
                && scoped_change(old(st).storage@, st.storage@, old(st).storage.scope() as usize),
            ok ==> st.storage.well_scoped() && globals_of(st.storage@) == globals_of(old(st).storage@),
        decreases budget,
    {
        let ghost s0 = *st;
        proof {
            if ok {
                assert(simple_while(av[0], av[1], env_of(st.storage@), cx, budget as nat) is Some);
                assert(simple_value(av[0], env_of(st.storage@), cx) matches Some((AtomV::Bool(_), _, None)));
                assert(ctx_of(*st) == cx);
                assert(d >= reserve(old(st).storage.scope()) + 5 * arg_size(args@[0]@) + 1);
            }
        }
        let c = eval_bool(&args[0], st, host, d)?;
        proof {
            if ok {
                lemma_scoped_change_trans(old(st).storage@, s0.storage@, st.storage@, old(st).storage.scope() as usize);
            }
        }
        if !c {
            return Ok(Atom::Null);
        }
        let ghost s1 = *st;
        eval(&args[1], st, host, d)?;
        proof {
            if ok {
                lemma_scoped_change_trans(old(st).storage@, s1.storage@, st.storage@, old(st).storage.scope() as usize);
            }
        }
        budget = budget - 1;
    }
    Err(too_deep(st))
}

/// Evaluates the arguments in turn and returns the value of the last (for
/// `_`); once `exit` was called, the remaining ones give `null`.
fn eval_in_turn<H: Host>(args: &[Argument], st: &mut State, host: &mut H, depth: u64) -> (r: Result<
    Atom,
    Exception,
>)
    requires
        old(st).storage.wf(),
        args@.len() >= 1,
    ensures
        final(st).storage.wf(),
        final(st).storage.scope() == old(st).storage.scope(),
        final(st).backtrace@ == old(st).backtrace@,
        old(st).exit_unwind_value.is_none() && old(st).storage.well_scoped() && depth >= reserve(old(st).storage.scope()) + 5 * args_size(
            args_view(args@, args@.len()),
            args@.len(),
        ) + 1 ==> simple_result(
            simple_seq(args_view(args@, args@.len()), env_of(old(st).storage@), args@.len(), ctx_of(*old(st))),
            *old(st),
            *final(st),
            r,
        ),
    decreases depth,
{
    if depth == 0 {
        return Err(too_deep(st));
    }
    let d = depth - 1;
    let ghost av = args_view(args@, args@.len());
    let ghost env0 = env_of(old(st).storage@);
    let ghost cx = ctx_of(*old(st));
    let ghost size = args_size(av, args@.len());
    proof {
        lemma_args_view(args@, args@.len());
    }
    let ghost ok = old(st).exit_unwind_value.is_none() && old(st).storage.well_scoped() && depth >= reserve(old(st).storage.scope()) + 5 * size + 1 && simple_seq(
        av,
        env0,
        args@.len(),
        cx,
    ) is Some;
    let mut i: usize = 0;
    while i < args.len() - 1
        invariant
            args@.len() >= 1,
            0 <= i < args@.len(),
            st.storage.wf(),
            st.storage.scope() == old(st).storage.scope(),
            st.backtrace@ == old(st).backtrace@,
            d < depth,
            d == depth - 1,
            av == args_view(args@, args@.len()),
            av.len() == args@.len(),
            forall|j: int| 0 <= j < av.len() ==> #[trigger] av[j] == args@[j]@,
            size == args_size(av, args@.len()),
            env0 == env_of(old(st).storage@),
            cx == ctx_of(*old(st)),
            ok == (old(st).exit_unwind_value.is_none() && old(st).storage.well_scoped() && depth >= reserve(old(st).storage.scope()) + 5 * size + 1 && simple_seq(
                av,
                env0,
                args@.len(),
                cx,
            ) is Some),
            ok ==> (simple_seq(av, env0, i as nat, cx) matches Some((_, e, x)) && env_of(st.storage@) == e
                && exit_matches(st.exit_unwind_value, x) && st.file_directory == old(st).file_directory),
            ok ==> scoped_change(old(st).storage@, st.storage@, old(st).storage.scope() as usize),
            ok ==> st.storage.well_scoped() && globals_of(st.storage@) == globals_of(old(st).storage@),
        decreases args@.len() - i,
    {
        proof {
            lemma_args_size(av, av.len(), i as int);
            if ok {
                lemma_simple_seq_prefix(av, env0, av.len(), (i + 1) as nat, cx);
                assert(simple_seq(av, env0, (i + 1) as nat, cx) == match simple_seq(av, env0, i as nat, cx) {
                    Some((_, e, None)) => simple_value(av[i as int], e, cx),
                    Some((_, e, Some(w))) => Some((AtomV::Null, e, Some(w))),
                    None => None,
                });
            }
        }
        let ghost mid = *st;
        eval(&args[i], st, host, d)?;
        proof {
            if ok {
                assert(ctx_of(mid) == cx);
                lemma_scoped_change_refl(mid.storage@, old(st).storage.scope() as usize);
                lemma_scoped_change_trans(old(st).storage@, mid.storage@, st.storage@, old(st).storage.scope() as usize);
            }
        }
        i = i + 1;
    }
    proof {
        lemma_args_size(av, av.len(), av.len() - 1);
        if ok {
            let n = (av.len() - 1) as nat;
            assert(simple_seq(av, env0, av.len(), cx) == match simple_seq(av, env0, n, cx) {
                Some((_, e, None)) => simple_value(av[n as int], e, cx),
                Some((_, e, Some(w))) => Some((AtomV::Null, e, Some(w))),
                None => None,
            });
            assert(ctx_of(*st) == cx);
        }
    }
    let ghost mid = *st;
    let r = eval(&args[args.len() - 1], st, host, d);
    proof {
        if ok {
            lemma_scoped_change_refl(mid.storage@, old(st).storage.scope() as usize);
            lemma_scoped_change_trans(old(st).storage@, mid.storage@, st.storage@, old(st).storage.scope() as usize);
        }
    }
    r
}

/// The line break at the end of a line read, if any, is dropped.
pub open spec fn strip_line_break(line: Seq<char>) -> Seq<char> {
    if line.len() > 0 && line.last() == '\n' {
        line.drop_last()
    } else {
        line
    }
}

/// What `input` gives for what reading a line gave: the line without its
/// line break, as a string, or an `Io` error with the reading error's text.
pub open spec fn input_result(read: Result<String, String>, r: Result<Atom, Exception>) -> bool {
    match read {
        Ok(line) => r matches Ok(a) && a@ == crate::atom::string_view(strip_line_break(line@)),
        Err(err) => r matches Err(e) && e.error@ == IoError@ && e.msg@ == "error while reading input: "@
            + err@ + ""@,
    }
}

/// What `input` gives for what reading a line gave: the line without its
/// line break, as a string, or an `Io` error with the reading error's text.
pub fn input_value(read: Result<String, String>, backtrace: &[Span]) -> (r: Result<Atom, Exception>)
    ensures
        input_result(read, r),
{
    match read {
        Ok(line) => {
            let cs = chars_of(line.as_str());
            let n = cs.len();
            let end = if n > 0 && cs[n - 1] == '\n' {
                n - 1
            } else {
                n
            };
            let mut out: Vec<char> = Vec::new();
            let mut i: usize = 0;
            while i < end
                invariant
                    end <= cs@.len(),
                    0 <= i <= end,
                    out@ == cs@.take(i as int),
                decreases end - i,
            {
                out.push(cs[i]);
                i = i + 1;
                assert(out@ =~= cs@.take(i as int));
            }
            assert(out@ =~= strip_line_break(line@));
            Ok(Atom::new_string_chars(&out))
        },
        Err(error) => {
            let msg = text3("error while reading input: ", error.as_str(), "");
            Err(Exception::with_trace(IoError, msg.as_str(), backtrace))
        },
    }
}

/// What `__builtin_now` (or, where `nanos`, `__builtin_now_nanos_part`)
/// gives for what reading the clock gave (see [`clock_value`]).
pub open spec fn clock_result(nanos: bool, d: Option<(u64, u32)>, r: Result<Atom, Exception>) -> bool {
    match d {
        Some((secs, ns)) => if nanos {
            r == Ok::<Atom, Exception>(Atom::Int(ns as i64))
        } else if secs <= i64::MAX {
            r == Ok::<Atom, Exception>(Atom::Int(secs as i64))
        } else {
            r matches Err(e) && e.error@ == OverflowError@
        },
        None => r matches Err(e) && e.error@ == IoError@ && e.msg@ == "internal time error"@,
    }
}

/// What `__builtin_now` (or, where `nanos`, `__builtin_now_nanos_part`)
/// gives for what reading the clock gave: the whole seconds since the Unix
/// epoch (an `Overflow` error where they do not fit in an integer) or the
/// nanoseconds of the second under way; an `Io` error where the clock is set
/// before the epoch.
pub fn clock_value(nanos: bool, d: Option<(u64, u32)>, backtrace: &[Span]) -> (r: Result<Atom, Exception>)
    ensures
        clock_result(nanos, d, r),
{
    match d {
        Some((secs, ns)) => {
            if nanos {
                Ok(Atom::Int(ns as i64))
            } else if secs <= 0x7fff_ffff_ffff_ffff {
                Ok(Atom::Int(secs as i64))
            } else {
                Err(
                    Exception::with_trace(
                        OverflowError,
                        "invalid integer: out of range integral type conversion attempted",
                        backtrace,
                    ),
                )
            }
        },
        None => Err(Exception::with_trace(IoError, "internal time error", backtrace)),
    }
}

/// The small mode number `mode` (0 to 255) as a byte.
fn mode_byte(mode: i64) -> (b: u8)
    requires
        0 <= mode <= 255,
    ensures
        b == mode,
{
    mode as u8
}

/// `__builtin_atom_cmp`: compares two values by a mode.
fn compare<H: Host>(args: &[Argument], st: &mut State, host: &mut H, depth: u64) -> (r: Result<
    Atom,
    Exception,
>)
    requires
        old(st).storage.wf(),
        args@.len() == 3,
    ensures
        final(st).storage.wf(),
        final(st).storage.scope() == old(st).storage.scope(),
        final(st).backtrace@ == old(st).backtrace@,
        depth > 1 && args@.len() == 3 && all_literal(args@, *old(st)) ==> match args@[0]->Atom_0 {
            Atom::Int(m) => if 0 <= m <= 3 {
                match crate::atom_order::atom_partial_cmp(args@[1]->Atom_0, args@[2]->Atom_0) {
                    Some(o) => r == Ok::<Atom, Exception>(
                        Atom::Bool(crate::atom_order::mode_holds_i64(m, o)),
                    ),
                    None => r matches Err(e) && e.error@ == ArgumentError@,
                }
            } else {
                r matches Err(e) && e.error@ == ArgumentError@
            },
            _ => r matches Err(e) && e.error@ == TypeError@,
        },
        old(st).exit_unwind_value.is_none() && old(st).storage.well_scoped() && depth >= reserve(old(st).storage.scope()) + 5 * args_size(args_view(args@, 3), 3) + 1
            ==> simple_result(simple_compare(args_view(args@, 3), env_of(old(st).storage@), ctx_of(*old(st))), *old(st), *final(st), r),
    decreases depth,
{
    if depth == 0 {
        return Err(too_deep(st));
    }
    let d = depth - 1;
    let ghost av = args_view(args@, 3);
    let ghost env0 = env_of(old(st).storage@);
    let ghost cx = ctx_of(*old(st));
    let ghost ok = old(st).exit_unwind_value.is_none() && old(st).storage.well_scoped() && depth >= reserve(old(st).storage.scope()) + 5 * args_size(av, 3) + 1
        && simple_compare(av, env0, cx) is Some;
    proof {
        lemma_args_view(args@, 3);
        if ok {
            lemma_simple_args_len(av, env0, 3, cx);
            lemma_args_size(av, 3, 0);
            lemma_args_size(av, 3, 1);
            lemma_args_size(av, 3, 2);
            assert(args_size(av, 0) == 0);
            assert(args_size(av, 1) == arg_size(av[0]));
            assert(args_size(av, 2) == arg_size(av[0]) + arg_size(av[1]));
            assert(args_size(av, 3) == arg_size(av[0]) + arg_size(av[1]) + arg_size(av[2]));
            lemma_simple_args_step(av, env0, 0, 3, cx);
            lemma_simple_args_step(av, env0, 1, 3, cx);
            lemma_simple_args_step(av, env0, 2, 3, cx);
            assert(simple_args(av, env0, 0, cx) == Some((Seq::<AtomV>::empty(), env0)));
        }
    }
    let ghost s0 = *st;
    let mode = eval_int(&args[0], st, host, d)?;
    let ghost s1 = *st;
    let lhs = eval(&args[1], st, host, d)?;
    proof {
        if ok {
            lemma_scoped_change_trans(old(st).storage@, s1.storage@, st.storage@, scope_of(*old(st)));
        }
    }
    let ghost s2 = *st;
    let rhs = eval(&args[2], st, host, d)?;
    proof {
        if ok {
            lemma_scoped_change_trans(old(st).storage@, s2.storage@, st.storage@, scope_of(*old(st)));
        }
    }
    if mode < 0 || mode > 3 {
        return Err(invalid_mode(st, mode));
    }
    let m = mode_byte(mode);
    proof {
        crate::atom_order::lemma_view_compare(m, mode, lhs, rhs);
    }
    builtin_atom_cmp(m, &lhs, &rhs, st.backtrace.as_slice())
}

/// The doc comment of the call being evaluated (empty if there is none).
fn current_doc(st: &State) -> (s: String)
    ensures
        match st.current_doc_comment {
            Some(c) => s@ == c@,
            None => s@ == Seq::<char>::empty(),
        },
{
    match &st.current_doc_comment {
        Some(c) => own(c.as_str()),
        None => String::new(),
    }
}

/// A constructor that calls `ctor` and then sets `field` to `value` on the
/// object it builds. It keeps the documentation and argument count of `ctor`.
pub fn wrap_ctor(ctor: Function, field: String, value: Atom) -> (f: Function)
    ensures
        f.0.doc@ == ctor.0.doc@,
        f.0.argc == ctor.0.argc,
        f.0.body == (FunctionBody::WithField { inner: ctor, field, value }),
{
    let doc = own(ctor.doc());
    let argc = ctor.argc();
    Function::new(doc, argc, FunctionBody::WithField { inner: ctor, field, value })
}

/// `def`: defines a function and binds it to a variable in the current scope.
fn def(args: &[Argument], st: &mut State) -> (r: Result<Atom, Exception>)
    requires
        old(st).storage.wf(),
    ensures
        final(st).storage.wf(),
        final(st).storage.scope() == old(st).storage.scope(),
        final(st).backtrace@ == old(st).backtrace@,
        args@.len() < 2 ==> (r matches Err(e) && e.error@ == ArgumentError@),
        def_args_ok(args@) ==> def_declared(args@, *old(st), *final(st), r),
        final(st).exit_unwind_value == old(st).exit_unwind_value,
        final(st).file_directory == old(st).file_directory,
        old(st).storage.well_scoped() ==> final(st).storage.well_scoped(),
{
    if args.len() < 2 {
        let mut v: Vec<char> = Vec::new();
        push_str(&mut v, "too few arguments passed to `def`: expected at least 2, found ");
        push_u64(&mut v, args.len() as u64);
        return Err(st.raise(ArgumentError, string_from_chars(&v).as_str()));
    }
    let var = args[0].variable(
        "Error during function definition: no valid variable was given to define to!",
        st.backtrace.as_slice(),
    )?;
    let var = own(var);
    let n = args.len();
    let doc = current_doc(st);
    proof {
        assert(args@.subrange(1, n - 1) == args@.subrange(1, args@.len() - 1));
    }
    let f = define_function(&args[n - 1], &args[1..n - 1], doc.as_str(), st.backtrace.as_slice())?;
    let ghost fa: Atom = f;
    let ghost before = st.storage@;
    st.storage.insert(var.as_str(), f);
    proof {
        crate::storage::law_lookup_after_insert(before, var@, fa, st.storage.scope() as usize);
    }
    Ok(Atom::Null)
}

/// `try_except`: evaluates the body; on an exception, binds its text to the
/// optional variable and evaluates the fallback instead.
fn try_except<H: Host>(args: &[Argument], st: &mut State, host: &mut H, depth: u64) -> (r: Result<
    Atom,
    Exception,
>)
    requires
        old(st).storage.wf(),
    ensures
        final(st).storage.wf(),
        final(st).storage.scope() == old(st).storage.scope(),
        final(st).backtrace@ == old(st).backtrace@,
        depth > 0 && args@.len() != 2 && args@.len() != 3 ==> (r matches Err(e) && {
            &&& e.error@ == ArgumentError@
            &&& e.msg@ == "invalid number of args for `try_except`: should be 2 or 3, was "@
                + crate::text::nat_digits(args@.len() as nat)
        }),
        depth > 0 && args@.len() == 3 && !(args@[2] is Variable) ==> (r matches Err(e) && e.error@
            == ArgumentError@ && e.msg@ == "invalid exception variable given to `try_except`"@),
        depth > 0 && args@.len() == 2 && old(st).exit_unwind_value.is_none() && (args@[0] matches Argument::Atom(a, _)) ==> r == Ok::<Atom, Exception>(args@[0]->Atom_0),
        depth > 0 && args@.len() == 3 && (args@[2] is Variable) && old(st).exit_unwind_value.is_none() && (args@[0] matches Argument::Atom(a, _)) ==> r == Ok::<Atom, Exception>(args@[0]->Atom_0),
        depth > 0 && args@.len() == 2 && old(st).exit_unwind_value.is_none() && (args@[0] is Variable) && leaf_value(args@[0], *old(st)).is_none() && (args@[1] matches Argument::Atom(b, _)) ==> r == Ok::<Atom, Exception>(args@[1]->Atom_0),
        old(st).exit_unwind_value.is_none() && old(st).storage.well_scoped() && (args@.len() == 2 || (args@.len() == 3
            && args@[2] is Variable)) && depth >= reserve(old(st).storage.scope()) + 5 * arg_size(args@[0]@) + 1
            ==> simple_result(
            simple_value(args@[0]@, env_of(old(st).storage@), ctx_of(*old(st))),
            *old(st),
            *final(st),
            r,
        ),
    decreases depth,
{
    if depth == 0 {
        return Err(too_deep(st));
    }
    let d = depth - 1;
    if args.len() == 2 {
        match eval(&args[0], st, host, d) {
            Ok(v) => Ok(v),
            Err(_) => eval(&args[1], st, host, d),
        }
    } else if args.len() == 3 {
        let exc_var = args[2].variable(
            "invalid exception variable given to `try_except`",
            st.backtrace.as_slice(),
        )?;
        let exc_var = own(exc_var);
        match eval(&args[0], st, host, d) {
            Ok(v) => Ok(v),
            Err(e) => {
                st.storage.insert(exc_var.as_str(), Atom::new_string(e.to_string().as_str()));
                eval(&args[1], st, host, d)
            },
        }
    } else {
        let mut v: Vec<char> = Vec::new();
        push_str(&mut v, "invalid number of args for `try_except`: should be 2 or 3, was ");
        push_u64(&mut v, args.len() as u64);
        Err(st.raise(ArgumentError, string_from_chars(&v).as_str()))
    }
}

/// Whether `margs` are the arguments `@` passes to a method for its own
/// arguments `args`: the object expression first, then the arguments after
/// the method's name, in order.
pub open spec fn method_arguments(args: Seq<Argument>, margs: Seq<Argument>) -> bool {
    &&& args.len() >= 2
    &&& margs.len() == args.len() - 1
    &&& margs[0]@ == args[0]@
    &&& forall|i: int| 1 <= i < margs.len() ==> (#[trigger] margs[i])@ == args[i + 1]@
}

/// What `@` does once it found the method `f` of the object: it calls `f`
/// with the object expression and the remaining arguments (see
/// [`method_arguments`]), in a state whose bindings and exit value are those
/// before the call, giving what a call of a defined function gives (see
/// [`defined_result`]).
pub open spec fn method_called(args: Seq<Argument>, f: Function, before: State, after: State, r: Result<Atom, Exception>, depth: int) -> bool {
    exists|margs: Seq<Argument>, mid: State|
        #![trigger method_arguments(args, margs), mid.storage]
        method_arguments(args, margs) && mid.storage == before.storage && mid.exit_unwind_value
            == before.exit_unwind_value && (argc_fits(f.0.argc, margs.len()) ==> (f.0.body matches FunctionBody::Defined {
            params,
            body,
        } ==> defined_result(params@, body, margs, mid, after, r, depth)))
}

/// The value bound last to a name that only the first binding assigns is
/// the first binding's value.
proof fn lemma_insert_all_first(m: Map<Seq<char>, StoredV>, ks: Seq<(Seq<char>, Atom)>, scope: usize)
    requires
        ks.len() >= 1,
        forall|j: int| 1 <= j < ks.len() ==> (#[trigger] ks[j]).0 != ks[0].0,
    ensures
        st_lookup(crate::storage::st_insert_all(m, ks, scope), ks[0].0) == Some(ks[0].1),
    decreases ks.len(),
{
    let rest = ks.drop_last();
    assert(ks[ks.len() - 1] == ks.last());
    if ks.len() == 1 {
        assert(rest =~= Seq::<(Seq<char>, Atom)>::empty());
        crate::storage::law_lookup_after_insert(m, ks[0].0, ks[0].1, scope);
    } else {
        assert forall|j: int| 1 <= j < rest.len() implies (#[trigger] rest[j]).0 != rest[0].0 by {
            assert(rest[j] == ks[j]);
        }
        lemma_insert_all_first(m, rest, scope);
        crate::storage::law_insert_other(
            crate::storage::st_insert_all(m, rest, scope),
            ks.last().0,
            ks[0].0,
            ks.last().1,
            scope,
        );
    }
}

/// `@` passes the object first: calling a method whose body gives back its
/// first parameter (every parameter plain, the first one's name used by no
/// other) on a literal object, with literal further arguments, gives the
/// object.
pub proof fn law_method_gets_object_first(
    args: Seq<Argument>,
    f: Function,
    before: State,
    after: State,
    r: Result<Atom, Exception>,
    depth: int,
)
    requires
        method_called(args, f, before, after, r, depth),
        depth > 1,
        before.storage.scope() < usize::MAX,
        before.exit_unwind_value.is_none(),
        forall|j: int| 0 <= j < args.len() && j != 1 ==> (#[trigger] args[j]) is Atom,
        f.0.argc matches Some(n) && n == args.len() - 1,
        f.0.body matches FunctionBody::Defined { params, body } && {
            &&& params@.len() == args.len() - 1
            &&& forall|j: int| 0 <= j < params@.len() ==> !(#[trigger] params@[j]).lazy && !params@[j].variadic
            &&& forall|j: int| 1 <= j < params@.len() ==> (#[trigger] params@[j]).name@ != params@[0].name@
            &&& body matches Argument::Variable(n, _) && n@ == params@[0].name@
        },
    ensures
        r matches Ok(v) && v@ == args[0]->Atom_0@,
{
    let (margs, mid) = choose|margs: Seq<Argument>, mid: State|
        #![trigger method_arguments(args, margs), mid.storage]
        method_arguments(args, margs) && mid.storage == before.storage && mid.exit_unwind_value
            == before.exit_unwind_value && (argc_fits(f.0.argc, margs.len()) ==> (f.0.body matches FunctionBody::Defined {
            params,
            body,
        } ==> defined_result(params@, body, margs, mid, after, r, depth)));
    if let FunctionBody::Defined { params, body } = f.0.body {
        assert forall|j: int| 0 <= j < margs.len() implies !((#[trigger] margs[j]) is FunctionCall)
            && leaf_value(margs[j], mid) is Some by {
            if j == 0 {
                assert(args[0] is Atom);
                assert(margs[0]@ == args[0]@);
            } else {
                assert(margs[j]@ == args[j + 1]@);
                assert(args[j + 1] is Atom);
            }
        }
        assert(crate::eval::plain_call(params@, margs, mid));
        let ks = crate::eval::param_bindings(params@, margs, mid);
        assert forall|j: int| 1 <= j < ks.len() implies (#[trigger] ks[j]).0 != ks[0].0 by {
            assert(params@[j].name@ != params@[0].name@);
        }
        lemma_insert_all_first(mid.storage@, ks, (mid.storage.scope() + 1) as usize);
        assert(margs[0]@ == args[0]@);
        assert(ks[0].0 == params@[0].name@);
        assert(ks[0].1 == margs[0]->Atom_0);
        assert(crate::argument::arg_view(margs[0]) == crate::argument::arg_view(args[0]));
        assert(margs[0]->Atom_0@ == args[0]->Atom_0@);
    }
}

/// `@`: calls a method of an object, the object itself (as written) being
/// the first argument.
fn call_method<H: Host>(args: &[Argument], st: &mut State, host: &mut H, depth: u64) -> (r: Result<
    Atom,
    Exception,
>)
    requires
        old(st).storage.wf(),
    ensures
        final(st).storage.wf(),
        final(st).storage.scope() == old(st).storage.scope(),
        final(st).backtrace@ == old(st).backtrace@,
        depth > 0 && args@.len() < 2 ==> (r matches Err(e) && e.error@ == SyntaxError@ && e.msg@
            == "too few arguments for `@`"@),
        depth > 2 && args@.len() >= 2 && without_call(args@[0], *old(st)) && args@[1] is Variable ==> match known_value(
            args@[0],
            *old(st),
        ) {
            Some(Atom::Object(o)) => keys_sorted(o.data@) && old(st).exit_unwind_value.is_none() ==> match field_lookup(
                o.data@,
                args@[1]->Variable_0@,
            ) {
                Some(Atom::Function(f)) => method_called(args@, f, *old(st), *final(st), r, depth - 2),
                _ => r is Err,
            },
            _ => true,
        },
        depth > 1 && args@.len() >= 2 && without_call(args@[0], *old(st)) ==> match known_value(args@[0], *old(st)) {
            Some(Atom::Object(o)) => true,
            Some(v) => r matches Err(e) && e.error@ == TypeError@ && e.msg@ == crate::atom::display_text(v@) + " is not a "@ + "Object"@,
            None => r matches Err(e) && e.error@ == NameError@,
        },
    decreases depth,
{
    if depth == 0 {
        return Err(too_deep(st));
    }
    let d = depth - 1;
    if args.len() < 2 {
        return Err(st.raise(SyntaxError, "too few arguments for `@`"));
    }
    let obj = eval_object(&args[0], st, host, d)?;
    let method_name = args[1].variable(
        "`@` expected the name of a method as second arg",
        st.backtrace.as_slice(),
    )?;
    let method_name = own(method_name);
    let func = match obj.get(method_name.as_str()) {
        None => {
            let msg = text3("object has no method `", method_name.as_str(), "`");
            return Err(st.raise(NameError, msg.as_str()));
        },
        Some(Atom::Function(f)) => f.clone(),
        Some(other) => {
            let msg = text3("", other.to_string().as_str(), " is not a function");
            return Err(st.raise(TypeError, msg.as_str()));
        },
    };
    let mut new_args: Vec<Argument> = Vec::new();
    new_args.push(args[0].clone());
    let mut i: usize = 2;
    while i < args.len()
        invariant
            2 <= i <= args@.len(),
            new_args@.len() == i - 1,
            new_args@[0]@ == args@[0]@,
            forall|j: int| 1 <= j < new_args@.len() ==> (#[trigger] new_args@[j])@ == args@[j + 1]@,
        decreases args@.len() - i,
    {
        new_args.push(args[i].clone());
        i = i + 1;
    }
    st.current_fn_name = Some(text3("<object>.", method_name.as_str(), ""));
    st.current_doc_comment = Some(String::new());
    let ghost mid = *st;
    let r = call_function(&func, new_args.as_slice(), st, host, d);
    proof {
        assert(method_arguments(args@, new_args@));
        if !(args@[0] is FunctionCall) {
            assert(mid.storage == old(st).storage);
        }
    }
    r
}

/// `__builtin_list_api`: length, indexing, removal and insertion on lists.
#[verifier::spinoff_prover]
#[verifier::rlimit(80)]
fn list_api<H: Host>(args: &[Argument], st: &mut State, host: &mut H, depth: u64) -> (r: Result<
    Atom,
    Exception,
>)
    requires
        old(st).storage.wf(),
    ensures
        final(st).storage.wf(),
        final(st).storage.scope() == old(st).storage.scope(),
        final(st).backtrace@ == old(st).backtrace@,
        depth > 0 && args@.len() == 0 ==> (r matches Err(e) && e.error@ == ArgumentError@ && e.msg@
            == "arg mismatch: no mode given"@),
        depth > 1 && all_known(args@, *old(st)) ==> list_api_values(known_vals(args@, *old(st)), r),
        old(st).exit_unwind_value.is_none() && old(st).storage.well_scoped() && depth >= reserve(old(st).storage.scope()) + 5 * args_size(args_view(args@, args@.len()), args@.len())
            + 1 ==> simple_result(
            simple_list_api(args_view(args@, args@.len()), env_of(old(st).storage@), ctx_of(*old(st))),
            *old(st),
            *final(st),
            r,
        ),
    decreases depth,
{
    if depth == 0 {
        return Err(too_deep(st));
    }
    let d = depth - 1;
    let ghost av = args_view(args@, args@.len());
    let ghost env0 = env_of(old(st).storage@);
    let ghost cx = ctx_of(*old(st));
    let ghost n = args@.len();
    let ghost ok = old(st).exit_unwind_value.is_none() && old(st).storage.well_scoped() && depth >= reserve(old(st).storage.scope()) + 5 * args_size(av, n) + 1
        && simple_list_api(av, env0, cx) is Some;
    let ghost vals = if ok { simple_args(av, env0, n, cx).unwrap().0 } else { Seq::empty() };
    proof {
        lemma_args_view(args@, args@.len());
        if ok {
            lemma_simple_args_len(av, env0, n, cx);
            lemma_args_size(av, n, 0);
            lemma_args_size(av, n, 1);
            if n > 2 {
                lemma_args_size(av, n, 2);
            }
            if n > 3 {
                lemma_args_size(av, n, 3);
            }
            assert(args_size(av, 0) == 0);
            assert(args_size(av, 1) == arg_size(av[0]));
            assert(args_size(av, 2) == arg_size(av[0]) + arg_size(av[1]));
            lemma_args_size_monotone(av, 2, n);
            if n > 2 {
                assert(args_size(av, 3) == args_size(av, 2) + arg_size(av[2]));
                lemma_args_size_monotone(av, 3, n);
            }
            assert(list_view_result(vals) is Some);
            assert(vals[0] is Int);
            assert(vals[1] is List);
        }
    }
    if args.len() == 0 {
        return Err(st.raise(ArgumentError, "arg mismatch: no mode given"));
    }
    proof {
        if ok {
            lemma_simple_args_step(av, env0, 0, n, cx);
            assert(simple_args(av, env0, 0, cx) == Some((Seq::<AtomV>::empty(), env0)));
        }
    }
    let ghost s0 = *st;
    let mode = eval_int(&args[0], st, host, d)?;
    proof {
        if ok {
            lemma_scoped_change_refl(s0.storage@, old(st).storage.scope() as usize);
            assert(vals[0] == AtomV::Int(mode));
            assert(env_of(st.storage@) == simple_args(av, env0, 1, cx).unwrap().1);
        }
    }
    if mode < LEN || mode > INSERT {
        return Err(invalid_mode(st, mode));
    }
    let expected = expected_list_argc(mode);
    if args.len() - 1 != expected {
        let mut v: Vec<char> = Vec::new();
        push_str(&mut v, "arg mismatch: mode ");
        push_i64(&mut v, mode);
        push_str(&mut v, ": expected ");
        push_u64(&mut v, expected as u64);
        push_str(&mut v, ", found ");
        push_u64(&mut v, (args.len() - 1) as u64);
        return Err(st.raise(ArgumentError, string_from_chars(&v).as_str()));
    }
    proof {
        if ok {
            lemma_simple_args_step(av, env0, 1, n, cx);
        }
    }
    let ghost s1 = *st;
    let list = eval_list(&args[1], st, host, d)?;
    proof {
        if ok {
            lemma_scoped_change_trans(old(st).storage@, s1.storage@, st.storage@, old(st).storage.scope() as usize);
            assert(vals[1] == AtomV::List(crate::atom::atoms_view(list.0@, list.0@.len())));
            assert(env_of(st.storage@) == simple_args(av, env0, 2, cx).unwrap().1);
            crate::atom::lemma_atoms_view(list.0@, list.0@.len());
        }
    }
    if mode == LEN {
        return list_len(&list, st.backtrace.as_slice());
    }
    proof {
        if ok {
            lemma_simple_args_step(av, env0, 2, n, cx);
            assert(vals[2] is Int);
        }
    }
    let ghost s2 = *st;
    let index = eval_int(&args[2], st, host, d)?;
    proof {
        if ok {
            lemma_scoped_change_trans(old(st).storage@, s2.storage@, st.storage@, old(st).storage.scope() as usize);
            assert(vals[2] == AtomV::Int(index));
            assert(env_of(st.storage@) == simple_args(av, env0, 3, cx).unwrap().1);
        }
    }
    if list.len() == usize::MAX {
        return Err(too_deep(st));
    }
    let i = list_index_checked(mode, list.len(), index, st.backtrace.as_slice())?;
    if mode == INSERT {
        proof {
            if ok {
                lemma_simple_args_step(av, env0, 3, n, cx);
            }
        }
        let ghost s3 = *st;
        let element = eval(&args[3], st, host, d)?;
        let r = builtin_list_api(mode, &list, i, Some(element));
        proof {
            if ok {
                lemma_scoped_change_trans(old(st).storage@, s3.storage@, st.storage@, old(st).storage.scope() as usize);
                assert(vals[3] == element@);
                crate::atom::lemma_atoms_view_insert(list.0@, i as int, element);
            }
        }
        Ok(r)
    } else {
        let r = builtin_list_api(mode, &list, i, None);
        proof {
            if ok && mode == REMOVE {
                crate::atom::lemma_atoms_view_remove(list.0@, i as int);
            }
        }
        Ok(r)
    }
}

/// What importing a module gives where its code is a simple program (see
/// [`run_outcome`]): `Ok` of its value, with the importer's exit value kept
/// and the module's bindings `m` added to the importer's, `m` giving the
/// visible values the module left; or, where the module left a local bound
/// more than once, an `Import` error with the importer's bindings unchanged.
pub open spec fn module_result(o: Outcome, before: State, after: State, r: Result<Atom, Exception>) -> bool {
    match o {
        Some((v, e, None)) => (r matches Ok(x) && x@ == v && after.exit_unwind_value == before.exit_unwind_value
            && exists|m: Map<Seq<char>, StoredV>|
            single_locals(m) && env_of(m) == e && #[trigger] st_extend(
                before.storage@,
                m,
                before.storage.scope() as usize,
            ) == after.storage@) || (r matches Err(err) && err.error@ == ImportError@ && err.msg@
            == "imported module left nested values behind"@ && after.storage == before.storage),
        Some((_, _, Some(w))) => r == Ok::<Atom, Exception>(Atom::Null) && exit_matches(after.exit_unwind_value, Some(w))
            && after.storage == before.storage,
        None => true,
    }
}

/// Runs the code of a module in a fresh state that knows the globals of the
/// importing program, then takes over what it defined.
fn run_module<H: Host>(mut sub: State, st: &mut State, host: &mut H, depth: u64) -> (r: Result<
    Atom,
    Exception,
>)
    requires
        old(st).storage.wf(),
        sub.storage.wf(),
        sub.storage.scope() == 0,
        sub.code.is_some(),
    ensures
        final(st).storage.wf(),
        final(st).storage.scope() == old(st).storage.scope(),
        final(st).backtrace@ == old(st).backtrace@,
        depth > 0 ==> exists|f: Rc<String>|
            f@ == path_text(sub.current_file_path) && #[trigger] module_result(
                run_outcome(sub, f, depth - 1),
                *old(st),
                *final(st),
                r,
            ),
        r matches Ok(a) ==> (final(st).exit_unwind_value.is_some() && a == Atom::Null
            && final(st).storage == old(st).storage) || (final(st).exit_unwind_value == old(st).exit_unwind_value
            && exists|m: Map<Seq<char>, StoredV>|
            single_locals(m) && #[trigger] st_extend(
                old(st).storage@,
                m,
                old(st).storage.scope() as usize,
            ) == final(st).storage@),
    decreases depth,
{
    if depth == 0 {
        return Err(too_deep(st));
    }
    let ghost sub0 = sub;
    let atom = sub.run_nested(host, depth - 1);
    let ghost f = choose|f: Rc<String>|
        f@ == path_text(sub0.current_file_path) && #[trigger] run_result(
            run_outcome(sub0, f, (depth - 1) as int),
            sub0,
            sub,
            atom,
        );
    if sub.exit_unwind_value.is_some() {
        let mut exit: Option<Result<Atom, Exception>> = None;
        std::mem::swap(&mut exit, &mut sub.exit_unwind_value);
        st.exit_unwind_value = exit;
        proof {
            assert(module_result(run_outcome(sub0, f, depth - 1), *old(st), *st, Ok::<Atom, Exception>(Atom::Null)));
        }
        return Ok(Atom::Null);
    }
    let atom = match atom {
        Ok(a) => a,
        Err(e) => {
            proof {
                assert(module_result(run_outcome(sub0, f, depth - 1), *old(st), *st, Err::<Atom, Exception>(e)));
            }
            return Err(e);
        },
    };
    if !sub.storage.has_single_locals() {
        let e = st.raise(ImportError, "imported module left nested values behind");
        proof {
            assert(module_result(run_outcome(sub0, f, depth - 1), *old(st), *st, Err::<Atom, Exception>(e)));
        }
        return Err(e);
    }
    let ghost m = sub.storage@;
    st.storage.extend_from(sub.storage);
    proof {
        assert(st_extend(old(st).storage@, m, old(st).storage.scope() as usize) == st.storage@);
        assert(module_result(run_outcome(sub0, f, depth - 1), *old(st), *st, Ok::<Atom, Exception>(atom)));
    }
    Ok(atom)
}

/// The values of the names bound to a global value in the bindings `m`.
pub open spec fn globals_view(m: Map<Seq<char>, StoredV>) -> Map<Seq<char>, AtomV> {
    Map::new(|k: Seq<char>| m.contains_key(k) && m[k] is Global, |k: Seq<char>| (m[k]->Global_0)@)
}

/// What importing the module of the standard library at index `i` of `stl`
/// gives, where its code is a simple program: the module runs over the
/// builtins and the importer's globals (see [`module_result`]).
pub open spec fn stl_import_result(
    stl: Seq<(String, String)>,
    i: int,
    depth: int,
    before: State,
    after: State,
    r: Result<Atom, Exception>,
) -> bool {
    exists|base: Map<Seq<char>, AtomV>, f: Rc<String>, g: Set<Seq<char>>|
        builtin_env(base) && f@ == "<stl:"@ + stl[i].0@ + ">"@ && #[trigger] module_result(
            program_outcome(stl[i].1@, f, false, depth, base.union_prefer_right(globals_view(before.storage@)), (true, 0nat, g)),
            before,
            after,
            r,
        )
}

/// Runs a module read from the file `path` of the directory `dir_path`, with
/// the code `code` that was read, for `import`.
fn run_file_module<H: Host>(
    sub: State,
    code: &str,
    path: String,
    dir_path: &str,
    st: &mut State,
    host: &mut H,
    depth: u64,
) -> (r: Result<Atom, Exception>)
    requires
        old(st).storage.wf(),
        sub.storage.wf(),
        sub.storage.scope() == 0,
    ensures
        final(st).storage.wf(),
        final(st).storage.scope() == old(st).storage.scope(),
        final(st).backtrace@ == old(st).backtrace@,
        depth > 1 && sub.storage.well_scoped() ==> exists|f: Rc<String>|
            f@ == path@ && #[trigger] module_result(
                program_outcome(code@, f, sub.optimizations_enabled, depth - 2, env_of(sub.storage@), (false, sub.storage.scope(), globals_of(sub.storage@))),
                *old(st),
                *final(st),
                r,
            ),
    decreases depth,
{
    if depth == 0 {
        return Err(too_deep(st));
    }
    let sub_dir = if chars_of(dir_path).len() == 0 {
        own(".")
    } else {
        own(dir_path)
    };
    let mut sub = sub.with_source_file(code, path.as_str(), sub_dir.as_str());
    sub.import_stack.push(path);
    let ghost sub1 = sub;
    let r = run_module(sub, st, host, depth - 1);
    proof {
        if depth > 1 && sub1.storage.well_scoped() {
            let f = choose|f: Rc<String>|
                f@ == path_text(sub1.current_file_path) && #[trigger] module_result(
                    run_outcome(sub1, f, depth - 2),
                    *old(st),
                    *st,
                    r,
                );
            assert(module_result(
                program_outcome(code@, f, sub1.optimizations_enabled, depth - 2, env_of(sub1.storage@), ctx_of(sub1)),
                *old(st),
                *st,
                r,
            ));
        }
    }
    r
}

/// `import`: runs a module from the program's directory or, failing that,
/// from the standard library, and takes over its definitions.
fn import<H: Host>(args: &[Argument], st: &mut State, host: &mut H, depth: u64) -> (r: Result<
    Atom,
    Exception,
>)
    requires
        old(st).storage.wf(),
        args@.len() == 1,
    ensures
        final(st).storage.wf(),
        final(st).storage.scope() == old(st).storage.scope(),
        final(st).backtrace@ == old(st).backtrace@,
        depth > 0 && (args@[0] matches Argument::Variable(name, _)) && !valid_import_name(
            args@[0]->Variable_0@,
        ) ==> (r matches Err(e) && e.error@ == ImportError@),
        depth > 0 && !(args@[0] is Variable) ==> (r matches Err(e) && e.error@ == ArgumentError@),
        depth > 1 && args@[0] is Variable && valid_import_name(args@[0]->Variable_0@) && !(old(
            st,
        ).file_directory is Regular) ==> {
            &&& forall|i: int|
                0 <= i < old(st).stl@.len() && (#[trigger] old(st).stl@[i]).0@ == args@[0]->Variable_0@
                    && (forall|k: int| 0 <= k < i ==> (#[trigger] old(st).stl@[k]).0@ != args@[0]->Variable_0@)
                    ==> stl_import_result(old(st).stl@, i, depth - 2, *old(st), *final(st), r)
            &&& (forall|k: int| 0 <= k < old(st).stl@.len() ==> (#[trigger] old(st).stl@[k]).0@ != args@[0]->Variable_0@)
                ==> (r matches Err(e) && e.error@ == ImportError@ && e.msg@ == "failed to find file for importing `"@
                + args@[0]->Variable_0@ + "`"@)
        },
    decreases depth,
{
    if depth == 0 {
        return Err(too_deep(st));
    }
    let name = args[0].variable(
        "`import` argument must be a variable, string syntax was removed",
        st.backtrace.as_slice(),
    )?;
    let name = own(name);
    check_import_name(name.as_str(), st.backtrace.as_slice())?;
    let mut sub = State::new(st.stl.clone());
    let ghost init = sub.storage@;
    let mut j: usize = 0;
    while j < st.import_stack.len()
        invariant
            args@.len() == 1,
            args@[0] is Variable,
            sub.storage.wf(),
            sub.storage.well_scoped(),
            sub.storage.scope() == 0,
            sub.storage@ == init,
            sub.file_directory is InternedSTL,
            !sub.optimizations_enabled,
            sub.stl == st.stl,
            st.storage.wf(),
            st.storage.scope() == old(st).storage.scope(),
            st.backtrace@ == old(st).backtrace@,
        decreases st.import_stack@.len() - j,
    {
        sub.import_stack.push(own(st.import_stack[j].as_str()));
        j = j + 1;
    }
    let globals = st.storage.all_globals();
    let mut g: usize = 0;
    while g < globals.len()
        invariant
            args@.len() == 1,
            args@[0] is Variable,
            sub.storage.wf(),
            sub.storage.well_scoped(),
            sub.storage.scope() == 0,
            sub.file_directory is InternedSTL,
            !sub.optimizations_enabled,
            sub.stl == st.stl,
            st.storage.wf(),
            st.storage.scope() == old(st).storage.scope(),
            st.backtrace@ == old(st).backtrace@,
            0 <= g <= globals@.len(),
            forall|t: int| 0 <= t < globals@.len() ==> st.storage@.contains_key((#[trigger] globals@[t]).0@)
                && st.storage@[globals@[t].0@] == StoredV::Global(globals@[t].1),
            forall|k: Seq<char>| #[trigger] sub.storage@.contains_key(k) == (init.contains_key(k) || exists|t: int|
                0 <= t < g && globals@[t].0@ == k),
            forall|k: Seq<char>| (exists|t: int| 0 <= t < g && globals@[t].0@ == k) ==> #[trigger] sub.storage@[k]
                == st.storage@[k],
            forall|k: Seq<char>| !(exists|t: int| 0 <= t < g && globals@[t].0@ == k) ==> #[trigger] sub.storage@[k]
                == init[k],
        decreases globals@.len() - g,
    {
        let ghost before = sub.storage@;
        sub.storage.add_global(globals[g].0.as_str(), globals[g].1.clone());
        proof {
            assert forall|k: Seq<char>| #[trigger] sub.storage@.contains_key(k) == (init.contains_key(k) || exists|t: int|
                0 <= t < g + 1 && globals@[t].0@ == k) by {
                if k == globals@[g as int].0@ {
                    assert(globals@[g as int].0@ == k);
                }
            }
            assert forall|k: Seq<char>| (exists|t: int| 0 <= t < g + 1 && globals@[t].0@ == k) implies #[trigger] sub.storage@[k]
                == st.storage@[k] by {
                if k != globals@[g as int].0@ {
                    let t = choose|t: int| 0 <= t < g + 1 && globals@[t].0@ == k;
                    assert(0 <= t < g && globals@[t].0@ == k);
                }
            }
            assert forall|k: Seq<char>| !(exists|t: int| 0 <= t < g + 1 && globals@[t].0@ == k) implies #[trigger] sub.storage@[k]
                == init[k] by {
                assert(k != globals@[g as int].0@);
            }
        }
        g = g + 1;
    }
    let ghost sub_env = env_of(sub.storage@);
    proof {
        let base = env_of(init);
        let gl = globals_view(st.storage@);
        assert forall|k: Seq<char>| #[trigger] st.storage@.contains_key(k) && st.storage@[k] is Global
            implies sub.storage@.contains_key(k) && sub.storage@[k] == st.storage@[k] by {
            let t = choose|t: int| 0 <= t < globals@.len() && globals@[t].0@ == k;
            assert(exists|t: int| 0 <= t < globals@.len() && globals@[t].0@ == k);
        }
        assert forall|k: Seq<char>| !(#[trigger] st.storage@.contains_key(k) && st.storage@[k] is Global)
            implies (sub.storage@.contains_key(k) == init.contains_key(k) && sub.storage@[k] == init[k]) by {
            if exists|t: int| 0 <= t < globals@.len() && globals@[t].0@ == k {
                let t = choose|t: int| 0 <= t < globals@.len() && globals@[t].0@ == k;
                assert(st.storage@[globals@[t].0@] == StoredV::Global(globals@[t].1));
            }
        }
        assert(sub_env =~= base.union_prefer_right(gl));
    }
    let dir: Option<String> = match &st.file_directory {
        Directory::Regular(d) => Some(own(d.as_str())),
        _ => None,
    };
    let mut found: Option<String> = None;
    match &dir {
        Some(dir_path) => {
            match host.read_dir(dir_path.as_str()) {
                Err(err) => {
                    let mut v: Vec<char> = Vec::new();
                    push_str(&mut v, "error when reading directory `");
                    push_str(&mut v, dir_path.as_str());
                    push_str(&mut v, "`: ");
                    push_str(&mut v, err.as_str());
                    return Err(st.raise(ImportError, string_from_chars(&v).as_str()));
                },
                Ok(entries) => {
                    let mut names: Vec<String> = Vec::new();
                    let mut e: usize = 0;
                    while e < entries.len()
                        invariant
                args@.len() == 1,
                args@[0] is Variable,
                            names@.len() == e,
                            e <= entries@.len(),
                        decreases entries@.len() - e,
                    {
                        names.push(own(entries[e].0.as_str()));
                        e = e + 1;
                    }
                    match find_import_file(names.as_slice(), name.as_str()) {
                        Some(i) => {
                            found = Some(own(entries[i].1.as_str()));
                        },
                        None => {},
                    }
                },
            }
        },
        None => {},
    }
    match (found, dir) {
        (Some(path), Some(dir_path)) => {
            let mut s: usize = 0;
            while s < sub.import_stack.len()
                invariant
                    args@.len() == 1,
                    args@[0] is Variable,
                    old(st).file_directory is Regular,
                    sub.storage.wf(),
                    sub.storage.scope() == 0,
                    st.storage.wf(),
                    st.storage.scope() == old(st).storage.scope(),
                    st.backtrace@ == old(st).backtrace@,
                decreases sub.import_stack@.len() - s,
            {
                if crate::text::chars_eq(
                    &chars_of(sub.import_stack[s].as_str()),
                    &chars_of(path.as_str()),
                ) {
                    let mut v: Vec<char> = Vec::new();
                    push_str(&mut v, "cyclic import of `");
                    push_str(&mut v, name.as_str());
                    push_str(&mut v, "` at path `");
                    push_str(&mut v, path.as_str());
                    push_str(&mut v, "` detected");
                    return Err(st.raise(ImportError, string_from_chars(&v).as_str()));
                }
                s = s + 1;
            }
            let code = match host.read_file(path.as_str()) {
                Ok(c) => c,
                Err(err) => {
                    let mut v: Vec<char> = Vec::new();
                    push_str(&mut v, "error when reading file `");
                    push_str(&mut v, path.as_str());
                    push_str(&mut v, "`: ");
                    push_str(&mut v, err.as_str());
                    return Err(st.raise(ImportError, string_from_chars(&v).as_str()));
                },
            };
            run_file_module(sub, code.as_str(), path, dir_path.as_str(), st, host, depth - 1)
        },
        _ => {
            proof {
                assert(st.stl == old(st).stl);
            }
            match try_resolve_import_in_stl(st.stl.as_slice(), name.as_str()) {
                Some(code) => {
                    let mut sub = sub.with_code(code.as_str());
                    let p = text3("<stl:", name.as_str(), ">");
                    sub.set_current_file_path(p.as_str());
                    let ghost sub1 = sub;
                    let r = run_module(sub, st, host, depth - 1);
                    proof {
                        assert(builtin_env(env_of(init)));
                        assert(env_of(sub1.storage@) == sub_env);
                        assert(env_of(sub1.storage@) == env_of(init).union_prefer_right(globals_view(old(st).storage@)));
                        assert(is_stl(sub1));
                        assert(sub1.storage.well_scoped());
                        assert(!sub1.optimizations_enabled);
                        assert(sub1.code.unwrap()@ == code@);
                        assert(path_text(sub1.current_file_path) == "<stl:"@ + name@ + ">"@);
                        assert forall|i: int|
                            depth > 1 && 0 <= i < old(st).stl@.len() && (#[trigger] old(st).stl@[i]).0@ == name@
                                && (forall|k: int| 0 <= k < i ==> (#[trigger] old(st).stl@[k]).0@ != name@)
                            implies stl_import_result(old(st).stl@, i, depth - 2, *old(st), *st, r) by {
                            let i0 = choose|i0: int|
                                0 <= i0 < old(st).stl@.len() && (#[trigger] old(st).stl@[i0]).0@ == name@
                                    && old(st).stl@[i0].1@ == code@ && forall|k: int| 0 <= k < i0 ==> (#[trigger] old(st).stl@[k]).0@ != name@;
                            if i0 < i {
                                assert(old(st).stl@[i0].0@ != name@);
                            } else if i < i0 {
                                assert(old(st).stl@[i].0@ != name@);
                            }
                            let f = choose|f: Rc<String>|
                                f@ == path_text(sub1.current_file_path) && #[trigger] module_result(
                                    run_outcome(sub1, f, depth - 2),
                                    *old(st),
                                    *st,
                                    r,
                                );
                            assert(module_result(
                                program_outcome(old(st).stl@[i].1@, f, false, depth - 2, env_of(init).union_prefer_right(globals_view(old(st).storage@)), ctx_of(sub1)),
                                *old(st),
                                *st,
                                r,
                            ));
                        }
                    }
                    r
                },
                None => {
                    let msg = text3("failed to find file for importing `", name.as_str(), "`");
                    Err(st.raise(ImportError, msg.as_str()))
                },
            }
        },
    }
}

/// `__builtin_prelude_import`: imports the prelude of the standard library,
/// unless the code running is the standard library itself.
fn prelude_import<H: Host>(st: &mut State, host: &mut H, depth: u64) -> (r: Result<Atom, Exception>)
    requires
        old(st).storage.wf(),
    ensures
        final(st).storage.wf(),
        final(st).storage.scope() == old(st).storage.scope(),
        final(st).backtrace@ == old(st).backtrace@,
        depth > 0 && (old(st).file_directory is InternedSTL) ==> r == Ok::<Atom, Exception>(Atom::Null)
            && *final(st) == *old(st),
        depth > 0 && !(old(st).file_directory is InternedSTL) && (forall|j: int| 0 <= j < old(st).stl@.len() ==> (#[trigger] old(st).stl@[j]).0@ != "prelude"@) ==> (r matches Err(e) && e.error@ == ImportError@ && e.msg@ == "`prelude.re` missing from STL"@),
        r is Ok ==> r == Ok::<Atom, Exception>(Atom::Null),
    decreases depth,
{
    if depth == 0 {
        return Err(too_deep(st));
    }
    match st.file_directory {
        Directory::InternedSTL => {
            return Ok(Atom::Null);
        },
        _ => {},
    }
    match try_resolve_import_in_stl(st.stl.as_slice(), "prelude") {
        Some(code) => {
            let mut sub = State::new(st.stl.clone()).with_code(code.as_str());
            sub.set_current_file_path("<stl:prelude>");
            let r = run_module(sub, st, host, depth - 1);
            match r {
                Ok(_) => Ok(Atom::Null),
                Err(e) => Err(e),
            }
        },
        None => Err(st.raise(ImportError, "`prelude.re` missing from STL")),
    }
}

} // verus!
