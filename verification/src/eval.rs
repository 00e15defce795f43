//! Evaluating syntax trees: variables, calls of functions defined in the
//! language, lazy arguments and constructors.

use crate::argument::{arg_size, args_size, args_view, lemma_args_size, lemma_args_view, Argument, FunctionCall};
use crate::semantics::{env_of, is_stl, ctx_of, doc_of, reserve, simple_args, simple_defined, lemma_simple_args_len, lemma_simple_args_step, simple_apply, simple_call, simple_result, simple_state, simple_value};
use crate::atom::{Atom, AtomV, Function, FunctionBody, List, Object};
use crate::builtins::fn_def::{argc_mismatch_msg, check_argc, check_variadic_args, FnArgument};
use crate::builtins::run::call_builtin;
use crate::builtins::ty::construct_object;
use crate::exception::{ArgumentError, Exception, NameError, TypeError};
use crate::host::Host;
use crate::state::State;
use crate::storage::{lemma_scoped_change_refl, lemma_scoped_change_trans, st_insert_all, st_lookup, StoredV};

use crate::text::{chars_of, push_chars, push_str, string_from_chars};
use vstd::prelude::*;

verus! {

/// The error kind raised when evaluation nests deeper than its limit.
#[allow(non_upper_case_globals)]
pub const RecursionError: &'static str = "Recursion";

/// The nesting limit a program starts with: far beyond what the stack of any
/// machine allows, so it only serves to bound evaluation.
pub const MAX_DEPTH: u64 = 0xffff_ffff_ffff_ffff;

/// The exception raised when evaluation nests too deeply.
pub fn too_deep(st: &State) -> (e: Exception)
    ensures
        e.error@ == RecursionError@,
{
    st.raise(RecursionError, "maximum evaluation depth reached")
}

/// What evaluating a node that is not a call gives: the literal value, or the
/// value visible under the variable's name (`None` for an unknown name).
pub open spec fn leaf_value(arg: Argument, st: State) -> Option<Atom> {
    match arg {
        Argument::Atom(a, _) => Some(a),
        Argument::Variable(v, _) => st_lookup(st.storage@, v@),
        Argument::FunctionCall(..) => None,
    }
}

/// The value evaluating `arg` gives, where it is known without running a
/// call: `null` once `exit` was called, else the value of a literal or
/// variable (`None` for a call or an unbound variable).
pub open spec fn known_value(arg: Argument, st: State) -> Option<Atom> {
    if st.exit_unwind_value.is_some() {
        Some(Atom::Null)
    } else {
        leaf_value(arg, st)
    }
}

/// Whether the value of `arg` is known without running a call (see
/// [`known_value`]); an unbound variable counts, as it fails without a call.
pub open spec fn without_call(arg: Argument, st: State) -> bool {
    st.exit_unwind_value.is_some() || !(arg is FunctionCall)
}

/// The result of evaluating an argument that must be of one kind: `Ok` of the
/// value if it has that kind, a `Type` error naming the value and the kind if
/// not, a `Name` error for an unbound variable.
pub open spec fn kind_result<T>(v: Option<Atom>, kind: Seq<char>, r: Result<T, Exception>, ok: spec_fn(Atom) -> Option<T>) -> bool {
    match v {
        Some(a) => match ok(a) {
            Some(x) => r == Ok::<T, Exception>(x),
            None => r matches Err(e) && e.error@ == TypeError@ && e.msg@ == crate::atom::display_text(a@)
                + " is not a "@ + kind,
        },
        None => r matches Err(e) && e.error@ == NameError@,
    }
}

/// The value given last to each name, where the names and the values come
/// from two sequences of equal views.
pub proof fn lemma_last_value_same(s: Seq<(String, Atom)>, t: Seq<(String, Atom)>, k: Seq<char>)
    requires
        s.len() == t.len(),
        forall|j: int| 0 <= j < s.len() ==> (#[trigger] s[j]).0@ == t[j].0@ && s[j].1 == t[j].1,
    ensures
        crate::object::last_value(s, k) == crate::object::last_value(t, k),
    decreases s.len(),
{
    if s.len() > 0 {
        lemma_last_value_same(s.drop_last(), t.drop_last(), k);
    }
}

/// The smaller of two lengths.
pub open spec fn min_len(a: nat, b: nat) -> nat {
    if a < b {
        a
    } else {
        b
    }
}

/// Whether the first arguments (as many as there are fields) are literals
/// and `exit` was not called: then a constructor's result is known.
pub open spec fn literal_args(args: Seq<Argument>, n_fields: nat, st: State) -> bool {
    &&& st.exit_unwind_value.is_none()
    &&& forall|j: int| 0 <= j < min_len(n_fields, args.len()) ==> (#[trigger] args[j]) is Atom
}

/// Whether every argument is a literal and `exit` was not called.
pub open spec fn all_literal(args: Seq<Argument>, st: State) -> bool {
    &&& st.exit_unwind_value.is_none()
    &&& forall|j: int| 0 <= j < args.len() ==> (#[trigger] args[j]) is Atom
}

/// Whether every argument is a literal or a bound variable, and `exit` was
/// not called: then their values are known without running a call.
pub open spec fn all_known(args: Seq<Argument>, st: State) -> bool {
    &&& st.exit_unwind_value.is_none()
    &&& forall|j: int| 0 <= j < args.len() ==> !((#[trigger] args[j]) is FunctionCall) && leaf_value(args[j], st) is Some
}

/// The values of arguments that are literals or bound variables.
pub open spec fn known_vals(args: Seq<Argument>, st: State) -> Seq<Atom> {
    Seq::new(args.len(), |j: int| leaf_value(args[j], st).unwrap())
}

/// Whether there is an argument for each parameter that is not variadic.
pub open spec fn fits_params(params: Seq<FnArgument>, n_args: nat) -> bool {
    forall|j: int| 0 <= j < params.len() ==> (#[trigger] params[j]).variadic || j < n_args
}

/// How the parameter `p` at index `j` is bound from the arguments: a copy of
/// the parameter with a value that is a lazy argument for a lazy parameter,
/// and a list of the remaining arguments for a variadic one.
pub open spec fn bound_param(b: (FnArgument, Atom), p: FnArgument, args: Seq<Argument>, j: int) -> bool {
    &&& b.0.name@ == p.name@
    &&& b.0.variadic == p.variadic
    &&& b.0.lazy == p.lazy
    &&& p.variadic ==> (b.1 matches Atom::List(l) && l.0@.len() == if j <= args.len() {
        args.len() - j
    } else {
        0
    })
    &&& !p.variadic && p.lazy ==> (b.1 matches Atom::Function(f) && (f.0.body matches FunctionBody::Lazy(
        a,
    ) && a@ == args[j]@))
}

/// Whether `n` arguments suit the argument count `argc`.
pub open spec fn argc_fits(argc: Option<usize>, n: nat) -> bool {
    match argc {
        Some(c) => c == n,
        None => true,
    }
}

/// What calling a function with the body `body` gives, where it is known
/// without running another call: a builtin as [`builtin_outcome`] says, a
/// lazy argument that is a literal or a variable, and a constructor called
/// with literals.
pub open spec fn call_outcome(body: FunctionBody, args: Seq<Argument>, before: State, after: State, r: Result<Atom, Exception>) -> bool {
    match body {
        FunctionBody::Builtin(k) => crate::builtins::run::builtin_outcome(k, args, before, after, r),
        FunctionBody::Lazy(a) => without_call(a, before) ==> match known_value(a, before) {
            Some(v) => r == Ok::<Atom, Exception>(v),
            None => r matches Err(e) && e.error@ == NameError@,
        },
        FunctionBody::Constructor { fields, ty_id } => literal_args(args, fields@.len(), before) ==> (
        r matches Ok(Atom::Object(o)) && o.ty_id == ty_id && forall|k: Seq<char>|
            #[trigger] crate::object::field_lookup(o.data@, k) == crate::object::last_value(
                Seq::new(
                    min_len(fields@.len(), args.len()),
                    |j: int| (fields@[j], args[j]->Atom_0),
                ),
                k,
            )),
        _ => true,
    }
}

/// A call of `name` bound to a function whose argument count fits the
/// arguments gives what calling that function gives (see [`call_outcome`]).
pub open spec fn bound_call(name: Seq<char>, args: Seq<Argument>, before: State, after: State, r: Result<Atom, Exception>) -> bool {
    match st_lookup(before.storage@, name) {
        Some(Atom::Function(f)) => argc_fits(f.0.argc, args.len()) ==> call_outcome(
            f.0.body,
            args,
            before,
            after,
            r,
        ),
        _ => true,
    }
}

/// A call of `name` bound to a function defined in the language, whose
/// argument count fits the arguments, gives what [`defined_result`] says,
/// within the nesting limit `depth`.
pub open spec fn bound_defined(
    name: Seq<char>,
    args: Seq<Argument>,
    before: State,
    after: State,
    r: Result<Atom, Exception>,
    depth: int,
) -> bool {
    match st_lookup(before.storage@, name) {
        Some(Atom::Function(f)) => argc_fits(f.0.argc, args.len()) ==> (f.0.body matches FunctionBody::Defined {
            params,
            body,
        } ==> defined_result(params@, body, args, before, after, r, depth)),
        _ => true,
    }
}

/// A call of `name` that is not bound to a function fails with a `Name`
/// error saying so.
pub open spec fn unbound_call(name: Seq<char>, st: State, r: Result<Atom, Exception>) -> bool {
    match st_lookup(st.storage@, name) {
        Some(Atom::Function(_)) => true,
        Some(_) => r matches Err(e) && e.error@ == NameError@ && e.msg@ == "`"@ + name
            + "` is not a function!"@,
        None => r matches Err(e) && e.error@ == NameError@ && e.msg@ == "No function `"@ + name
            + "` found!"@,
    }
}

/// Evaluates a node of a syntax tree.
///
/// Once `exit` was called, nothing more is evaluated and `null` is returned.
/// A literal evaluates to its value, a variable to the value visible under its
/// name (a `Name` error if there is none), and a call to what the called
/// function returns. While it is evaluated, the node's span is on the
/// backtrace.
pub fn eval<H: Host>(arg: &Argument, st: &mut State, host: &mut H, depth: u64) -> (r: Result<
    Atom,
    Exception,
>)
    requires
        old(st).storage.wf(),
    ensures
        final(st).storage.wf(),
        final(st).storage.scope() == old(st).storage.scope(),
        final(st).backtrace@ == old(st).backtrace@,
        old(st).exit_unwind_value.is_some() ==> r == Ok::<Atom, Exception>(Atom::Null),
        old(st).exit_unwind_value.is_some() ==> *final(st) == *old(st),
        !(arg is FunctionCall) ==> final(st).storage == old(st).storage && final(st).exit_unwind_value
            == old(st).exit_unwind_value && final(st).backtrace@ == old(st).backtrace@
            && final(st).file_directory == old(st).file_directory && final(st).code == old(st).code
            && final(st).stl == old(st).stl && final(st).next_type_id == old(st).next_type_id,
        old(st).exit_unwind_value.is_none() && !(arg is FunctionCall) ==> match leaf_value(
            *arg,
            *old(st),
        ) {
            Some(v) => r == Ok::<Atom, Exception>(v),
            None => r matches Err(e) && {
                &&& e.error@ == NameError@
                &&& e.msg@ == "No variable named `"@ + arg->Variable_0@ + "` found!"@
                &&& e.backtrace.is_some()
                &&& e.backtrace.unwrap()@ == old(st).backtrace@.push(arg->Variable_1)
            },
        },
        old(st).exit_unwind_value.is_none() && old(st).storage.well_scoped() && depth >= reserve(old(st).storage.scope()) + 5 * arg_size(arg@) ==> simple_result(
            simple_value(arg@, env_of(old(st).storage@), ctx_of(*old(st))),
            *old(st),
            *final(st),
            r,
        ),
        final(st).file_directory == old(st).file_directory || (arg is FunctionCall),
        old(st).exit_unwind_value.is_none() && depth > 1 ==> (arg matches Argument::FunctionCall(
            c,
            _,
        ) ==> unbound_call(c.name@, *old(st), r)),
    decreases depth,
{
    if st.exit_unwind_value.is_some() {
        return Ok(Atom::Null);
    }
    st.backtrace.push(arg.span().clone());
    match arg {
        Argument::FunctionCall(call, _) => {
            st.current_doc_comment = Some(call.doc_comment.clone());
            st.current_fn_name = Some(call.name.clone());
        },
        _ => {
            st.current_doc_comment = None;
            st.current_fn_name = None;
        },
    }
    let res = match arg {
        Argument::FunctionCall(call, _) => {
            if depth == 0 {
                Err(too_deep(st))
            } else {
                proof {
                    lemma_args_view(call.args@, call.args@.len());
                }
                eval_call(call, st, host, depth - 1)
            }
        },
        Argument::Atom(a, _) => Ok(a.clone()),
        Argument::Variable(v, _) => match st.storage.get(v.as_str()) {
            Some(x) => Ok(x.clone()),
            None => {
                let mut m: Vec<char> = Vec::new();
                push_str(&mut m, "No variable named `");
                push_str(&mut m, v.as_str());
                push_str(&mut m, "` found!");
                Err(st.raise(NameError, string_from_chars(&m).as_str()))
            },
        },
    };
    st.backtrace.pop();
    res
}

/// Evaluates a call: looks up the function by name and calls it with the
/// call's arguments, unevaluated.
pub fn eval_call<H: Host>(call: &FunctionCall, st: &mut State, host: &mut H, depth: u64) -> (r:
    Result<Atom, Exception>)
    requires
        old(st).storage.wf(),
    ensures
        final(st).storage.wf(),
        final(st).storage.scope() == old(st).storage.scope(),
        final(st).backtrace@ == old(st).backtrace@,
        old(st).exit_unwind_value.is_some() ==> r == Ok::<Atom, Exception>(Atom::Null),
        old(st).exit_unwind_value.is_none() && depth > 0 ==> unbound_call(call.name@, *old(st), r),
        old(st).exit_unwind_value.is_none() && depth > 2 ==> bound_call(call.name@, call.args@, *old(st), *final(st), r),
        old(st).exit_unwind_value.is_none() && depth > 1 ==> bound_defined(call.name@, call.args@, *old(st), *final(st), r, depth - 2),
        old(st).exit_unwind_value.is_none() && old(st).storage.well_scoped() && depth >= reserve(old(st).storage.scope()) + 5 * args_size(
            args_view(call.args@, call.args@.len()),
            call.args@.len(),
        ) + 4 ==> simple_result(
            simple_call(call.name@, args_view(call.args@, call.args@.len()), env_of(old(st).storage@), ctx_of(*old(st)), doc_of(*old(st))),
            *old(st),
            *final(st),
            r,
        ),
    decreases depth,
{
    if st.exit_unwind_value.is_some() {
        return Ok(Atom::Null);
    }
    if depth == 0 {
        return Err(too_deep(st));
    }
    let function = st.get_function(call.name.as_str())?;
    call_function(&function, call.args.as_slice(), st, host, depth - 1)
}

/// Calls a function with unevaluated arguments: a function with an argument
/// count first checks that it got that many (else an `Argument` error naming
/// the function called, if known), then runs its body.
pub fn call_function<H: Host>(
    f: &Function,
    args: &[Argument],
    st: &mut State,
    host: &mut H,
    depth: u64,
) -> (r: Result<Atom, Exception>)
    requires
        old(st).storage.wf(),
    ensures
        final(st).storage.wf(),
        final(st).storage.scope() == old(st).storage.scope(),
        final(st).backtrace@ == old(st).backtrace@,
        (f.0.argc matches Some(n) && n != args@.len()) ==> r is Err,
        depth > 0 && f.0.argc is Some && f.0.argc.unwrap() != args@.len() ==> (r matches Err(e)
            && e.error@ == ArgumentError@ && e.msg@ == argc_mismatch_msg(
            f.0.argc.unwrap(),
            args@.len() as usize,
            match old(st).current_fn_name {
                Some(s) => Some(s@),
                None => None,
            },
        )),
        depth > 0 && f.0.argc is Some && f.0.argc.unwrap() != args@.len() ==> *final(st) == *old(st),
        depth > 1 && argc_fits(f.0.argc, args@.len()) ==> call_outcome(f.0.body, args@, *old(st), *final(st), r),
        argc_fits(f.0.argc, args@.len()) && depth > 0 ==> (f.0.body matches FunctionBody::Defined { params, body }
            ==> defined_result(params@, body, args@, *old(st), *final(st), r, depth - 1)),
        old(st).exit_unwind_value.is_none() && old(st).storage.well_scoped() && depth >= reserve(old(st).storage.scope()) + 5 * args_size(args_view(args@, args@.len()), args@.len())
            + 3 ==> simple_result(
            simple_apply(crate::atom::fn_view(*f).body, f.0.argc, args_view(args@, args@.len()), env_of(old(st).storage@), ctx_of(*old(st)), doc_of(*old(st))),
            *old(st),
            *final(st),
            r,
        ),
    decreases depth,
{
    if depth == 0 {
        return Err(too_deep(st));
    }
    let name: Option<&str> = match &st.current_fn_name {
        Some(n) => Some(n.as_str()),
        None => None,
    };
    proof {
        lemma_args_view(args@, args@.len());
    }
    check_argc(f.argc(), args.len(), name, st.backtrace.as_slice())?;
    match f.body() {
        FunctionBody::Builtin(k) => call_builtin(*k, args, st, host, depth - 1),
        FunctionBody::Defined { params, body } => call_defined(
            params.as_slice(),
            body,
            args,
            st,
            host,
            depth - 1,
        ),
        FunctionBody::Lazy(a) => eval_lazy(a, st, host, depth - 1),
        FunctionBody::Constructor { fields, ty_id } => construct(fields, *ty_id, args, st, host, depth - 1),
        FunctionBody::WithField { inner, field, value } => {
            let built = call_function(inner, args, st, host, depth - 1)?;
            match built {
                Atom::Object(o) => Ok(Atom::Object(object_with(&o, field.as_str(), value.clone()))),
                other => Ok(other),
            }
        },
    }
}

/// An object with `field` set to `value`, whether or not it had that field;
/// the other fields keep the value last given to them.
pub fn object_with(o: &Object, field: &str, value: Atom) -> (r: Object)
    ensures
        r.ty_id == o.ty_id,
        crate::object::keys_sorted(r.data@),
        crate::object::field_lookup(r.data@, field@) == Some(value),
        forall|k: Seq<char>|
            k != field@ ==> #[trigger] crate::object::field_lookup(r.data@, k)
                == crate::object::last_value(o.data@, k),
{
    let mut v = o.fields();
    let ghost base = v@;
    v.push((string_from_chars(&chars_of(field)), value));
    proof {
        assert(v@.drop_last() =~= base);
    }
    Object::new(v, o.ty_id)
}

/// A lazy argument: a function of no arguments that evaluates the argument
/// when it is called.
pub fn make_lazy(arg: &Argument) -> (r: Atom)
    ensures
        r matches Atom::Function(f) && f.0.argc == Some(0usize) && f.0.doc@ == Seq::<char>::empty()
            && (f.0.body matches FunctionBody::Lazy(a) && a@ == arg@),
{
    Atom::Function(Function::new(String::new(), Some(0), FunctionBody::Lazy(arg.clone())))
}

/// Evaluates a lazy argument one scope further out, where it was written.
pub fn eval_lazy<H: Host>(arg: &Argument, st: &mut State, host: &mut H, depth: u64) -> (r: Result<
    Atom,
    Exception,
>)
    requires
        old(st).storage.wf(),
    ensures
        final(st).storage.wf(),
        final(st).storage.scope() == old(st).storage.scope(),
        final(st).backtrace@ == old(st).backtrace@,
        depth > 0 && without_call(*arg, *old(st)) ==> match known_value(*arg, *old(st)) {
            Some(v) => r == Ok::<Atom, Exception>(v),
            None => r matches Err(e) && e.error@ == NameError@,
        },
        depth > 0 && without_call(*arg, *old(st)) ==> final(st).storage@ == old(st).storage@
            && final(st).exit_unwind_value == old(st).exit_unwind_value,
    decreases depth,
{
    if depth == 0 {
        return Err(too_deep(st));
    }
    let scope = st.storage.current_scope();
    st.storage.set_scope(scope.wrapping_sub(1));
    let v = eval(arg, st, host, depth - 1);
    st.storage.set_scope(scope);
    v
}

/// Calls a constructor: evaluates the arguments in order and builds an
/// object with one field per argument.
pub fn construct<H: Host>(
    fields: &Vec<String>,
    ty_id: i64,
    args: &[Argument],
    st: &mut State,
    host: &mut H,
    depth: u64,
) -> (r: Result<Atom, Exception>)
    requires
        old(st).storage.wf(),
    ensures
        final(st).storage.wf(),
        final(st).storage.scope() == old(st).storage.scope(),
        final(st).backtrace@ == old(st).backtrace@,
        r matches Ok(v) ==> (v matches Atom::Object(o) && o.ty_id == ty_id && crate::object::keys_sorted(
            o.data@,
        )),
        depth > 0 && literal_args(args@, fields@.len(), *old(st)) ==> (r matches Ok(
            Atom::Object(o),
        ) && forall|k: Seq<char>|
            #[trigger] crate::object::field_lookup(o.data@, k) == crate::object::last_value(
                Seq::new(
                    min_len(fields@.len(), args@.len()),
                    |j: int| (fields@[j], args@[j]->Atom_0),
                ),
                k,
            )),
    decreases depth,
{
    if depth == 0 {
        return Err(too_deep(st));
    }
    let ghost lit = literal_args(args@, fields@.len(), *old(st));
    let n = if fields.len() < args.len() {
        fields.len()
    } else {
        args.len()
    };
    let mut names: Vec<String> = Vec::new();
    let mut values: Vec<Atom> = Vec::new();
    let mut i: usize = 0;
    while i < n
        invariant
            n <= fields@.len(),
            n <= args@.len(),
            0 <= i <= n,
            names@.len() == i,
            values@.len() == i,
            depth > 0,
            n == min_len(fields@.len(), args@.len()),
            st.storage.wf(),
            st.storage.scope() == old(st).storage.scope(),
            st.backtrace@ == old(st).backtrace@,
            lit == literal_args(args@, fields@.len(), *old(st)),
            lit ==> st.storage == old(st).storage && st.exit_unwind_value == old(st).exit_unwind_value,
            forall|j: int| 0 <= j < i ==> (#[trigger] names@[j])@ == fields@[j]@,
            lit ==> forall|j: int| 0 <= j < i ==> #[trigger] values@[j] == args@[j]->Atom_0,
        decreases n - i,
    {
        let v = eval(&args[i], st, host, depth - 1)?;
        names.push(string_from_chars(&chars_of(fields[i].as_str())));
        values.push(v);
        i = i + 1;
    }
    let ghost vals = values@;
    let o = construct_object(&names, values, ty_id);
    proof {
        if lit {
            assert forall|k: Seq<char>| #[trigger] crate::object::field_lookup(o.data@, k)
                == crate::object::last_value(
                Seq::new(n as nat, |j: int| (fields@[j], args@[j]->Atom_0)),
                k,
            ) by {
                lemma_last_value_same(
                    Seq::new(names@.len(), |j: int| (names@[j], vals[j])),
                    Seq::new(n as nat, |j: int| (fields@[j], args@[j]->Atom_0)),
                    k,
                );
            }
        }
    }
    Ok(Atom::Object(o))
}

/// Whether the parameters `params` take `n` arguments without lazy
/// parameters: one argument each, and any number (even none) for a variadic
/// parameter, which comes last.
pub open spec fn plain_params(params: Seq<FnArgument>, n: nat) -> bool {
    &&& forall|j: int|
        0 <= j < params.len() ==> !(#[trigger] params[j]).lazy && (params[j].variadic ==> j == params.len() - 1)
    &&& if params.len() > 0 && params[params.len() - 1].variadic {
        n + 1 >= params.len()
    } else {
        n == params.len()
    }
}

/// Whether a variadic parameter has been bound among the first `idx`
/// parameters.
spec fn variadic_done(params: Seq<FnArgument>, idx: nat) -> bool {
    idx == params.len() && params.len() > 0 && params[params.len() - 1].variadic
}

/// The values bound to the parameters of a defined function: each argument
/// evaluated (or made lazy), the variadic parameter getting a list of the
/// remaining ones.
fn bind_arguments<H: Host>(
    params: &[FnArgument],
    args: &[Argument],
    st: &mut State,
    host: &mut H,
    depth: u64,
) -> (r: Result<Vec<(FnArgument, Atom)>, Exception>)
    requires
        old(st).storage.wf(),
    ensures
        final(st).storage.wf(),
        final(st).storage.scope() == old(st).storage.scope(),
        final(st).backtrace@ == old(st).backtrace@,
        r matches Ok(v) ==> v@.len() == params@.len() && forall|j: int|
            0 <= j < params@.len() ==> bound_param(#[trigger] v@[j], params@[j], args@, j),
        depth > 0 && all_known(args@, *old(st)) && fits_params(params@, args@.len()) ==> (r matches Ok(
            v,
        ) && forall|j: int|
            0 <= j < params@.len() && !params@[j].variadic && !params@[j].lazy
                ==> #[trigger] v@[j].1 == known_vals(args@, *old(st))[j]),
        depth > 0 && all_known(args@, *old(st)) ==> final(st).storage == old(st).storage
            && final(st).exit_unwind_value == old(st).exit_unwind_value && final(st).file_directory
            == old(st).file_directory,
        old(st).exit_unwind_value.is_none() && old(st).storage.well_scoped() && plain_params(params@, args@.len())
            && depth >= reserve(old(st).storage.scope()) + 5 * args_size(args_view(args@, args@.len()), args@.len()) + 1
            ==> (simple_args(args_view(args@, args@.len()), env_of(old(st).storage@), args@.len(), ctx_of(*old(st)))
            matches Some((vals, e)) ==> r matches Ok(v) && (forall|j: int|
            0 <= j < params@.len() ==> (#[trigger] v@[j]).1@ == crate::semantics::bound_vals(
                crate::atom::params_view(params@),
                vals,
            )[j]) && simple_state(*old(st), *final(st), e, None)),
    decreases depth,
{
    if depth == 0 {
        return Err(too_deep(st));
    }
    let ghost av = args_view(args@, args@.len());
    let ghost env0 = env_of(old(st).storage@);
    let ghost cx = ctx_of(*old(st));
    let ghost ps = crate::atom::params_view(params@);
    proof {
        lemma_args_view(args@, args@.len());
    }
    let ghost ok = old(st).exit_unwind_value.is_none() && old(st).storage.well_scoped() && plain_params(
        params@,
        args@.len(),
    ) && depth >= reserve(old(st).storage.scope()) + 5 * args_size(av, args@.len()) + 1 && simple_args(
        av,
        env0,
        args@.len(),
        cx,
    ) is Some;
    let ghost vals = if ok {
        simple_args(av, env0, args@.len(), cx).unwrap().0
    } else {
        Seq::<AtomV>::empty()
    };
    let ghost bv = crate::semantics::bound_vals(ps, vals);
    proof {
        if ok {
            lemma_simple_args_len(av, env0, args@.len(), cx);
            lemma_scoped_change_refl(old(st).storage@, old(st).storage.scope() as usize);
            assert(simple_args(av, env0, 0, cx) == Some((Seq::<AtomV>::empty(), env0)));
        }
    }
    let ghost lit = all_known(args@, *old(st));
    let ghost mut used: nat = 0;
    let mut values: Vec<(FnArgument, Atom)> = Vec::new();
    let mut idx: usize = 0;
    while idx < params.len()
        invariant
            0 <= idx <= params@.len(),
            depth > 0,
            st.storage.wf(),
            st.storage.scope() == old(st).storage.scope(),
            st.backtrace@ == old(st).backtrace@,
            lit == all_known(args@, *old(st)),
            lit ==> st.storage == old(st).storage && st.exit_unwind_value == old(st).exit_unwind_value
                && st.file_directory == old(st).file_directory,
            lit && fits_params(params@, args@.len()) ==> forall|j: int|
                0 <= j < idx && !params@[j].variadic && !params@[j].lazy
                    ==> #[trigger] values@[j].1 == known_vals(args@, *old(st))[j],
            values@.len() == idx,
            forall|j: int| 0 <= j < idx ==> bound_param(#[trigger] values@[j], params@[j], args@, j),
            av == args_view(args@, args@.len()),
            av.len() == args@.len(),
            forall|k: int| 0 <= k < args@.len() ==> #[trigger] av[k] == args@[k]@,
            env0 == env_of(old(st).storage@),
            cx == ctx_of(*old(st)),
            ps == crate::atom::params_view(params@),
            ok == (old(st).exit_unwind_value.is_none() && old(st).storage.well_scoped() && plain_params(
                params@,
                args@.len(),
            ) && depth >= reserve(old(st).storage.scope()) + 5 * args_size(av, args@.len()) + 1 && simple_args(
                av,
                env0,
                args@.len(),
                cx,
            ) is Some),
            ok ==> vals == simple_args(av, env0, args@.len(), cx).unwrap().0 && vals.len() == args@.len(),
            bv == crate::semantics::bound_vals(ps, vals),
            ok ==> used <= args@.len() && ((used == idx && !variadic_done(params@, idx as nat)) || (variadic_done(
                params@,
                idx as nat,
            ) && used == args@.len())),
            ok ==> simple_args(av, env0, used, cx) is Some && simple_state(
                *old(st),
                *st,
                simple_args(av, env0, used, cx).unwrap().1,
                None,
            ),
            ok ==> forall|j: int| 0 <= j < idx ==> (#[trigger] values@[j]).1@ == bv[j],
        decreases params@.len() - idx,
    {
        let p = &params[idx];
        let ghost s0 = *st;
        proof {
            if ok {
                assert(used == idx);
                if !p.variadic {
                    assert(idx < args@.len());
                    lemma_simple_args_step(av, env0, idx as nat, args@.len(), cx);
                    lemma_args_size(av, av.len(), idx as int);
                }
                assert(ctx_of(s0) == cx);
            }
        }
        if p.variadic {
            let mut va: Vec<Atom> = Vec::new();
            let mut j: usize = idx;
            proof {
                if ok {
                    assert(idx == params@.len() - 1);
                }
            }
            while j < args.len()
                invariant
                    idx <= j,
                    idx <= args@.len() ==> j <= args@.len(),
                    idx > args@.len() ==> va@.len() == 0,
                    idx <= args@.len() ==> va@.len() == j - idx,
                    av == args_view(args@, args@.len()),
                    av.len() == args@.len(),
                    forall|k: int| 0 <= k < args@.len() ==> #[trigger] av[k] == args@[k]@,
                    env0 == env_of(old(st).storage@),
                    cx == ctx_of(*old(st)),
                    ok == (old(st).exit_unwind_value.is_none() && old(st).storage.well_scoped() && plain_params(
                        params@,
                        args@.len(),
                    ) && depth >= reserve(old(st).storage.scope()) + 5 * args_size(av, args@.len()) + 1
                        && simple_args(av, env0, args@.len(), cx) is Some),
                    ok ==> vals == simple_args(av, env0, args@.len(), cx).unwrap().0 && vals.len() == args@.len(),
                    ok ==> !p.lazy && idx <= args@.len(),
                    ok ==> used == j && simple_args(av, env0, used, cx) is Some && simple_state(
                        *old(st),
                        *st,
                        simple_args(av, env0, used, cx).unwrap().1,
                        None,
                    ),
                    ok ==> forall|i: int| 0 <= i < va@.len() ==> (#[trigger] va@[i])@ == vals[idx + i],
                    depth > 0,
                    st.storage.wf(),
                    st.storage.scope() == old(st).storage.scope(),
                    st.backtrace@ == old(st).backtrace@,
                    lit == all_known(args@, *old(st)),
                    lit ==> st.storage == old(st).storage && st.exit_unwind_value == old(
                        st,
                    ).exit_unwind_value && st.file_directory == old(st).file_directory,
                decreases args@.len() - j,
            {
                let ghost s1 = *st;
                proof {
                    if ok {
                        lemma_simple_args_step(av, env0, j as nat, args@.len(), cx);
                        lemma_args_size(av, av.len(), j as int);
                        assert(ctx_of(s1) == cx);
                    }
                }
                let v = if p.lazy {
                    make_lazy(&args[j])
                } else {
                    eval(&args[j], st, host, depth - 1)?
                };
                proof {
                    if ok {
                        lemma_scoped_change_trans(old(st).storage@, s1.storage@, st.storage@, old(st).storage.scope() as usize);
                        used = used + 1;
                    }
                }
                va.push(v);
                j = j + 1;
            }
            let ghost vs = va@;
            let l = Atom::List(List::new(va));
            proof {
                if ok {
                    crate::atom::lemma_atoms_view(vs, vs.len());
                    assert(j == args@.len());
                    assert(crate::atom::atoms_view(vs, vs.len()) =~= vals.subrange(idx as int, vals.len() as int));
                    assert(ps[idx as int].1);
                    assert(l@ == bv[idx as int]);
                }
            }
            values.push((p.clone(), l));
        } else {
            if idx >= args.len() {
                let name: Option<&str> = match &st.current_fn_name {
                    Some(n) => Some(n.as_str()),
                    None => None,
                };
                check_argc(Some(params.len()), args.len(), name, st.backtrace.as_slice())?;
                return Err(too_deep(st));
            }
            let v = if p.lazy {
                make_lazy(&args[idx])
            } else {
                eval(&args[idx], st, host, depth - 1)?
            };
            proof {
                if ok {
                    lemma_scoped_change_trans(old(st).storage@, s0.storage@, st.storage@, old(st).storage.scope() as usize);
                    used = used + 1;
                    assert(!ps[idx as int].1);
                }
            }
            values.push((p.clone(), v));
        }
        idx = idx + 1;
    }
    proof {
        if ok {
            assert(used == args@.len());
        }
    }
    Ok(values)
}

/// Whether a call of a defined function with the parameters `params` is
/// plain: for each parameter an argument that is a literal or a bound
/// variable, no parameter lazy or variadic, and `exit` not called.
pub open spec fn plain_call(params: Seq<FnArgument>, args: Seq<Argument>, st: State) -> bool {
    &&& all_known(args, st)
    &&& args.len() == params.len()
    &&& forall|j: int| 0 <= j < params.len() ==> !(#[trigger] params[j]).lazy && !params[j].variadic
}

/// Each parameter's name with the value of the argument for it (a literal or
/// a bound variable, see [`known_vals`]).
pub open spec fn param_bindings(params: Seq<FnArgument>, args: Seq<Argument>, st: State) -> Seq<(Seq<char>, Atom)> {
    Seq::new(params.len(), |j: int| (params[j].name@, known_vals(args, st)[j]))
}

/// The value of a literal, or of a variable in the bindings `m`.
pub open spec fn leaf_lookup(a: Argument, m: Map<Seq<char>, StoredV>) -> Option<Atom> {
    match a {
        Argument::Atom(x, _) => Some(x),
        Argument::Variable(v, _) => st_lookup(m, v@),
        Argument::FunctionCall(..) => None,
    }
}

/// What a plain call (see [`plain_call`]) of a function defined with the
/// parameters `params` and the body `body` gives, within the nesting limit
/// `depth`: each parameter is assigned its argument, in order, in a scope
/// of its own (the bindings `m`), and the body is evaluated there. A body that
/// is a literal or a variable gives its value in `m` (a `Name` error for an
/// unbound variable), and afterwards every name has the value it had before,
/// where the storage was well scoped and no parameter names a global. (A
/// simple call, whatever its body, is described by [`simple_defined`].)
pub open spec fn defined_result(
    params: Seq<FnArgument>,
    body: Argument,
    args: Seq<Argument>,
    before: State,
    after: State,
    r: Result<Atom, Exception>,
    depth: int,
) -> bool {
    plain_call(params, args, before) && before.storage.scope() < usize::MAX && depth > 1 ==> {
        let m = st_insert_all(
            before.storage@,
            param_bindings(params, args, before),
            (before.storage.scope() + 1) as usize,
        );
        &&& !(body is FunctionCall) ==> match leaf_lookup(body, m) {
            Some(v) => r == Ok::<Atom, Exception>(v),
            None => r matches Err(e) && e.error@ == NameError@,
        }
        &&& !(body is FunctionCall) && before.storage.well_scoped() && (forall|j: int|
            0 <= j < params.len() ==> !(before.storage@.contains_key((#[trigger] params[j]).name@)
                && before.storage@[params[j].name@] is Global)) ==> forall|k: Seq<char>|
            #[trigger] st_lookup(after.storage@, k) == st_lookup(before.storage@, k)
    }
}

/// Calls a function defined in the language: binds the parameters in a new
/// scope (lazy ones one scope further out), evaluates the body and leaves
/// the scope again.
pub fn call_defined<H: Host>(
    params: &[FnArgument],
    body: &Argument,
    args: &[Argument],
    st: &mut State,
    host: &mut H,
    depth: u64,
) -> (r: Result<Atom, Exception>)
    requires
        old(st).storage.wf(),
    ensures
        final(st).storage.wf(),
        final(st).storage.scope() == old(st).storage.scope(),
        final(st).backtrace@ == old(st).backtrace@,
        depth > 0 && params@.len() > 0 && params@[params@.len() - 1].variadic && args@.len()
            < params@.len() - 1 ==> (r matches Err(e) && {
            &&& e.error@ == ArgumentError@
            &&& e.msg@ == "too few arguments to variadic function: expected at least "@
                + crate::text::nat_digits((params@.len() - 1) as nat) + ", found "@
                + crate::text::nat_digits(args@.len() as nat)
        }),
        defined_result(params@, *body, args@, *old(st), *final(st), r, depth as int),
        old(st).exit_unwind_value.is_none() && old(st).storage.well_scoped() && depth >= reserve(
            old(st).storage.scope(),
        ) + 5 * args_size(args_view(args@, args@.len()), args@.len()) + 2 ==> simple_result(
            simple_defined(crate::atom::params_view(params@), body@, args_view(args@, args@.len()), env_of(old(st).storage@), ctx_of(*old(st))),
            *old(st),
            *final(st),
            r,
        ),
    decreases depth,
{
    if depth == 0 {
        return Err(too_deep(st));
    }
    let ghost av = args_view(args@, args@.len());
    let ghost env0 = env_of(old(st).storage@);
    let ghost cx = ctx_of(*old(st));
    let ghost ok = old(st).exit_unwind_value.is_none() && old(st).storage.well_scoped() && depth >= reserve(
        old(st).storage.scope(),
    ) + 5 * args_size(av, args@.len()) + 2 && simple_defined(crate::atom::params_view(params@), body@, av, env0, cx) is Some;
    proof {
        lemma_args_view(args@, args@.len());
        if ok {
            assert forall|j: int| 0 <= j < params@.len() implies !(#[trigger] params@[j]).lazy && (params@[j].variadic
                ==> j == params@.len() - 1) by {
                assert(crate::atom::params_view(params@)[j] == (params@[j].name@, params@[j].variadic, params@[j].lazy));
            }
            if params@.len() > 0 {
                assert(crate::atom::params_view(params@)[params@.len() - 1].1 == params@[params@.len() - 1].variadic);
            }
            assert(plain_params(params@, args@.len()));
        }
    }
    let n = params.len();
    if n > 0 && params[n - 1].variadic {
        check_variadic_args(n, args.len(), st.backtrace.as_slice())?;
    }
    let ghost plain = plain_call(params@, args@, *old(st)) && depth > 1;
    let ghost ks = param_bindings(params@, args@, *old(st));
    proof {
        if plain {
            assert(fits_params(params@, args@.len()));
        }
    }
    let ghost m0 = old(st).storage@;
    let values = bind_arguments(params, args, st, host, depth - 1)?;
    let ghost s1 = *st;
    let ghost m1 = st.storage@;
    let ghost e1 = if ok {
        simple_args(av, env0, args@.len(), cx).unwrap().1
    } else {
        env0
    };
    let ghost kv = Seq::new(values@.len() as nat, |j: int| (values@[j].0.name@, values@[j].1));
    let scope = st.storage.current_scope();
    if scope == usize::MAX {
        return Err(too_deep(st));
    }
    let ghost ws = st.storage.well_scoped();
    st.storage.start_scope();
    proof {
        assert(ks.take(0) =~= Seq::<(Seq<char>, Atom)>::empty());
        assert(kv.take(0) =~= Seq::<(Seq<char>, Atom)>::empty());
    }
    let mut i: usize = 0;
    while i < values.len()
        invariant
            0 <= i <= values@.len(),
            scope < usize::MAX,
            st.storage.wf(),
            st.storage.scope() == scope + 1,
            st.backtrace@ == old(st).backtrace@,
            values@.len() == params@.len(),
            forall|j: int| 0 <= j < params@.len() ==> bound_param(#[trigger] values@[j], params@[j], args@, j),
            plain == (plain_call(params@, args@, *old(st)) && depth > 1),
            ks == param_bindings(params@, args@, *old(st)),
            kv == Seq::new(values@.len() as nat, |j: int| (values@[j].0.name@, values@[j].1)),
            plain ==> forall|j: int| 0 <= j < params@.len() ==> #[trigger] values@[j].1 == known_vals(args@, *old(st))[j],
            plain ==> st.storage@ == st_insert_all(m0, ks.take(i as int), (scope + 1) as usize),
            plain ==> st.file_directory == old(st).file_directory && st.exit_unwind_value
                == old(st).exit_unwind_value,
            plain && ws ==> st.storage.well_scoped(),
            ok ==> forall|j: int| 0 <= j < params@.len() ==> !(#[trigger] params@[j]).lazy,
            ok ==> st.storage@ == st_insert_all(m1, kv.take(i as int), (scope + 1) as usize),
            ok ==> st.file_directory == s1.file_directory && st.exit_unwind_value == s1.exit_unwind_value,
            ok ==> ws && st.storage.well_scoped(),
        decreases values@.len() - i,
    {
        let ghost before = st.storage@;
        let (p, v) = (&values[i].0, &values[i].1);
        if p.lazy {
            st.storage.set_scope(scope);
            st.storage.insert(p.name.as_str(), v.clone());
            st.storage.set_scope(scope + 1);
        } else {
            st.storage.insert(p.name.as_str(), v.clone());
        }
        proof {
            if plain {
                assert(ks.take(i + 1).drop_last() =~= ks.take(i as int));
                assert(ks.take(i + 1).last() == ks[i as int]);
                assert(ks[i as int] == (params@[i as int].name@, known_vals(args@, *old(st))[i as int]));
                assert(values@[i as int].0.name@ == params@[i as int].name@);
                assert(!values@[i as int].0.lazy);
            }
            if ok {
                assert(kv.take(i + 1).drop_last() =~= kv.take(i as int));
                assert(kv.take(i + 1).last() == kv[i as int]);
                assert(!values@[i as int].0.lazy);
            }
        }
        i = i + 1;
    }
    proof {
        if plain {
            assert(ks.take(i as int) =~= ks);
        }
        if ok {
            assert(kv.take(i as int) =~= kv);
        }
    }
    let ghost mid = *st;
    proof {
        if ok {
            simple_defined_step(params@, body@, av, env0, cx, *old(st), s1, mid, values@, kv, scope);
        }
    }
    let result = eval(body, st, host, depth - 1);
    let ghost inner = st.storage@;
    let ghost s2 = *st;
    st.storage.end_scope();
    proof {
        if plain && ws && !(*body is FunctionCall) && (forall|j: int|
            0 <= j < params@.len() ==> !(m0.contains_key((#[trigger] params@[j]).name@)
                && m0[params@[j].name@] is Global)) {
            crate::storage::lemma_well_scoped(&old(st).storage);
            assert forall|t: int| 0 <= t < ks.len() implies !(m0.contains_key((#[trigger] ks[t]).0) && m0[ks[t].0] is Global) by {
                assert(ks[t].0 == params@[t].name@);
            }
            assert forall|k: Seq<char>| #[trigger] st_lookup(st.storage@, k) == st_lookup(m0, k) by {
                crate::storage::law_scope_restores_all(m0, scope as nat, ks, k);
            }
        }
        if ok {
            simple_defined_end(params@, body@, av, env0, cx, *old(st), s1, mid, s2, *st, kv, scope, result);
        }
    }
    result
}

/// The state in which a simple call of a defined function evaluates its
/// body: the bindings of its parameters are visible there, in the context of
/// a new scope, and the body fits the depth kept for it.
proof fn simple_defined_step(
    params: Seq<FnArgument>,
    body: crate::argument::ArgV,
    av: Seq<crate::argument::ArgV>,
    env0: Map<Seq<char>, AtomV>,
    cx: crate::semantics::Ctx,
    before: State,
    s1: State,
    mid: State,
    values: Seq<(FnArgument, Atom)>,
    kv: Seq<(Seq<char>, Atom)>,
    scope: usize,
)
    requires
        simple_defined(crate::atom::params_view(params), body, av, env0, cx) is Some,
        cx == ctx_of(before),
        env0 == env_of(before.storage@),
        simple_args(av, env0, av.len(), cx) matches Some((vals, e)) && simple_state(before, s1, e, None)
            && (forall|j: int| 0 <= j < params.len() ==> (#[trigger] values[j]).1@ == crate::semantics::bound_vals(
            crate::atom::params_view(params),
            vals,
        )[j]),
        values.len() == params.len(),
        forall|j: int| 0 <= j < params.len() ==> (#[trigger] values[j]).0.name@ == params[j].name@,
        kv == Seq::new(values.len() as nat, |j: int| (values[j].0.name@, values[j].1)),
        scope == s1.storage.scope(),
        mid.storage@ == st_insert_all(s1.storage@, kv, (scope + 1) as usize),
        mid.storage.scope() == scope + 1,
        mid.file_directory == s1.file_directory,
    ensures
        env_of(mid.storage@) == crate::semantics::bind_env(
            simple_args(av, env0, av.len(), cx).unwrap().1,
            crate::semantics::param_names(crate::atom::params_view(params)),
            crate::semantics::bound_vals(crate::atom::params_view(params), simple_args(av, env0, av.len(), cx).unwrap().0),
            params.len(),
        ),
        ctx_of(mid) == (cx.0, cx.1 + 1, cx.2),
        reserve(cx.1) == reserve(cx.1 + 1) + 0x10_0000,
        5 * arg_size(body) + 10 <= 0x10_0000,
{
    let vals = simple_args(av, env0, av.len(), cx).unwrap().0;
    lemma_simple_args_len(av, env0, av.len(), cx);
    crate::semantics::lemma_env_insert_all(
        s1.storage@,
        kv,
        (scope + 1) as usize,
        crate::semantics::param_names(crate::atom::params_view(params)),
        crate::semantics::bound_vals(crate::atom::params_view(params), vals),
    );
}

/// What a simple call of a defined function leaves: the body's value, the
/// visible values of the caller (the globals as the body left them), and a
/// scoped change of the caller's bindings.
proof fn simple_defined_end(
    params: Seq<FnArgument>,
    body: crate::argument::ArgV,
    av: Seq<crate::argument::ArgV>,
    env0: Map<Seq<char>, AtomV>,
    cx: crate::semantics::Ctx,
    before: State,
    s1: State,
    mid: State,
    s2: State,
    after: State,
    kv: Seq<(Seq<char>, Atom)>,
    scope: usize,
    r: Result<Atom, Exception>,
)
    requires
        simple_defined(crate::atom::params_view(params), body, av, env0, cx) is Some,
        cx == ctx_of(before),
        env0 == env_of(before.storage@),
        simple_args(av, env0, av.len(), cx) matches Some((vals, e)) && simple_state(before, s1, e, None),
        kv.len() == params.len(),
        forall|j: int| 0 <= j < params.len() ==> (#[trigger] kv[j]).0 == params[j].name@,
        scope == s1.storage.scope(),
        mid.storage@ == st_insert_all(s1.storage@, kv, (scope + 1) as usize),
        env_of(mid.storage@) == crate::semantics::bind_env(
            simple_args(av, env0, av.len(), cx).unwrap().1,
            crate::semantics::param_names(crate::atom::params_view(params)),
            crate::semantics::bound_vals(crate::atom::params_view(params), simple_args(av, env0, av.len(), cx).unwrap().0),
            params.len(),
        ),
        ctx_of(mid) == (cx.0, cx.1 + 1, cx.2),
        simple_result(simple_value(body, env_of(mid.storage@), ctx_of(mid)), mid, s2, r),
        after.storage@ == crate::storage::st_end_scope(s2.storage@, (scope + 1) as usize),
        after.storage.scope() == scope,
        s2.storage.well_scoped() ==> after.storage.well_scoped(),
        after.exit_unwind_value == s2.exit_unwind_value,
        after.file_directory == s2.file_directory,
        mid.file_directory == s1.file_directory,
    ensures
        simple_result(simple_defined(crate::atom::params_view(params), body, av, env0, cx), before, after, r),
{
    let e = simple_args(av, env0, av.len(), cx).unwrap().1;
    let g = cx.2;
    let m1 = s1.storage@;
    let inner = s2.storage@;
    let o = simple_value(body, env_of(mid.storage@), ctx_of(mid));
    assert(o matches Some((_, _, None)));
    let eb = o.unwrap().1;
    crate::storage::lemma_well_scoped(&s1.storage);
    assert(crate::semantics::globals_of(m1) == g);
    assert forall|i: int| 0 <= i < kv.len() implies !(m1.contains_key((#[trigger] kv[i]).0) && m1[kv[i].0] is Global) by {
        assert(kv[i].0 == params[i].name@);
        assert(crate::atom::params_view(params)[i].0 == params[i].name@);
        assert(!g.contains(params[i].name@));
        assert(!crate::semantics::globals_of(m1).contains(kv[i].0));
    }
    crate::storage::law_call_is_scoped_change(m1, scope as nat, kv, inner);
    lemma_scoped_change_trans(before.storage@, m1, after.storage@, scope);
    assert forall|k: Seq<char>| #[trigger] env_of(after.storage@).contains_key(k) == e.contains_key(k) && (e.contains_key(k)
        ==> env_of(after.storage@)[k] == crate::semantics::restore_env(e, eb, g)[k]) by {
        if m1.contains_key(k) && m1[k] is Global {
            assert(crate::semantics::globals_of(m1).contains(k));
            assert(after.storage@[k] == inner[k]);
            assert(env_of(inner).contains_key(k));
        } else {
            crate::storage::law_scoped_change_restores(m1, scope as nat, kv, inner, k);
            assert(!crate::semantics::globals_of(m1).contains(k));
        }
    }
    assert(env_of(after.storage@) =~= crate::semantics::restore_env(e, eb, g));
    assert forall|k: Seq<char>| #[trigger] crate::semantics::globals_of(after.storage@).contains(k)
        == crate::semantics::globals_of(m1).contains(k) by {
        if m1.contains_key(k) && m1[k] is Global {
            assert(after.storage@[k] == inner[k]);
        }
    }
    assert(crate::semantics::globals_of(after.storage@) =~= crate::semantics::globals_of(before.storage@));
}

/// Evaluates an argument that must be an integer; another value raises a
/// `Type` error.
pub fn eval_int<H: Host>(arg: &Argument, st: &mut State, host: &mut H, depth: u64) -> (r: Result<
    i64,
    Exception,
>)
    requires
        old(st).storage.wf(),
    ensures
        final(st).storage.wf(),
        final(st).storage.scope() == old(st).storage.scope(),
        final(st).backtrace@ == old(st).backtrace@,
        !(*arg is FunctionCall) || old(st).exit_unwind_value.is_some() ==> final(st).storage
            == old(st).storage && final(st).exit_unwind_value == old(st).exit_unwind_value,
        depth > 0 && without_call(*arg, *old(st)) ==> kind_result(
            known_value(*arg, *old(st)),
            "Int"@,
            r,
            |a: Atom| match a { Atom::Int(x) => Some(x), _ => None },
        ),
        old(st).exit_unwind_value.is_none() && old(st).storage.well_scoped() && depth >= reserve(old(st).storage.scope()) + 5 * arg_size(arg@) + 1 ==> match simple_value(
            arg@,
            env_of(old(st).storage@),
            ctx_of(*old(st)),
        ) {
            Some((AtomV::Int(x), e, None)) => r == Ok::<i64, Exception>(x) && simple_state(*old(st), *final(st), e, None),
            _ => true,
        },
    decreases depth,
{
    if depth == 0 {
        return Err(too_deep(st));
    }
    match eval(arg, st, host, depth - 1)? {
        Atom::Int(v) => Ok(v),
        val => Err(not_a(st, &val, "Int")),
    }
}

/// Evaluates an argument that must be a boolean.
pub fn eval_bool<H: Host>(arg: &Argument, st: &mut State, host: &mut H, depth: u64) -> (r: Result<
    bool,
    Exception,
>)
    requires
        old(st).storage.wf(),
    ensures
        final(st).storage.wf(),
        final(st).storage.scope() == old(st).storage.scope(),
        final(st).backtrace@ == old(st).backtrace@,
        !(*arg is FunctionCall) || old(st).exit_unwind_value.is_some() ==> final(st).storage
            == old(st).storage && final(st).exit_unwind_value == old(st).exit_unwind_value,
        depth > 0 && without_call(*arg, *old(st)) ==> kind_result(
            known_value(*arg, *old(st)),
            "Bool"@,
            r,
            |a: Atom| match a { Atom::Bool(x) => Some(x), _ => None },
        ),
        old(st).exit_unwind_value.is_none() && old(st).storage.well_scoped() && depth >= reserve(old(st).storage.scope()) + 5 * arg_size(arg@) + 1 ==> match simple_value(
            arg@,
            env_of(old(st).storage@),
            ctx_of(*old(st)),
        ) {
            Some((AtomV::Bool(x), e, None)) => r == Ok::<bool, Exception>(x) && simple_state(*old(st), *final(st), e, None),
            _ => true,
        },
    decreases depth,
{
    if depth == 0 {
        return Err(too_deep(st));
    }
    match eval(arg, st, host, depth - 1)? {
        Atom::Bool(v) => Ok(v),
        val => Err(not_a(st, &val, "Bool")),
    }
}

/// Evaluates an argument that must be a list.
pub fn eval_list<H: Host>(arg: &Argument, st: &mut State, host: &mut H, depth: u64) -> (r: Result<
    List,
    Exception,
>)
    requires
        old(st).storage.wf(),
    ensures
        final(st).storage.wf(),
        final(st).storage.scope() == old(st).storage.scope(),
        final(st).backtrace@ == old(st).backtrace@,
        !(*arg is FunctionCall) || old(st).exit_unwind_value.is_some() ==> final(st).storage
            == old(st).storage && final(st).exit_unwind_value == old(st).exit_unwind_value,
        depth > 0 && without_call(*arg, *old(st)) ==> kind_result(
            known_value(*arg, *old(st)),
            "List"@,
            r,
            |a: Atom| match a { Atom::List(x) => Some(x), _ => None },
        ),
        old(st).exit_unwind_value.is_none() && old(st).storage.well_scoped() && depth >= reserve(old(st).storage.scope()) + 5 * arg_size(arg@) + 1 ==> match simple_value(
            arg@,
            env_of(old(st).storage@),
            ctx_of(*old(st)),
        ) {
            Some((AtomV::List(x), e, None)) => r matches Ok(l) && crate::atom::atoms_view(l.0@, l.0@.len()) == x
                && simple_state(*old(st), *final(st), e, None),
            _ => true,
        },
    decreases depth,
{
    if depth == 0 {
        return Err(too_deep(st));
    }
    match eval(arg, st, host, depth - 1)? {
        Atom::List(v) => Ok(v),
        val => Err(not_a(st, &val, "List")),
    }
}

/// Evaluates an argument that must be a function.
pub fn eval_function<H: Host>(arg: &Argument, st: &mut State, host: &mut H, depth: u64) -> (r:
    Result<Function, Exception>)
    requires
        old(st).storage.wf(),
    ensures
        final(st).storage.wf(),
        final(st).storage.scope() == old(st).storage.scope(),
        final(st).backtrace@ == old(st).backtrace@,
        !(*arg is FunctionCall) || old(st).exit_unwind_value.is_some() ==> final(st).storage
            == old(st).storage && final(st).exit_unwind_value == old(st).exit_unwind_value,
        depth > 0 && without_call(*arg, *old(st)) ==> kind_result(
            known_value(*arg, *old(st)),
            "Function"@,
            r,
            |a: Atom| match a { Atom::Function(x) => Some(x), _ => None },
        ),
        old(st).exit_unwind_value.is_none() && old(st).storage.well_scoped() && depth >= reserve(old(st).storage.scope()) + 5 * arg_size(arg@) + 1 ==> match simple_value(
            arg@,
            env_of(old(st).storage@),
            ctx_of(*old(st)),
        ) {
            Some((AtomV::Function(x), e, None)) => r matches Ok(g) && crate::atom::fn_view(g) == x && simple_state(*old(st), *final(st), e, None),
            _ => true,
        },
    decreases depth,
{
    if depth == 0 {
        return Err(too_deep(st));
    }
    match eval(arg, st, host, depth - 1)? {
        Atom::Function(v) => Ok(v),
        val => Err(not_a(st, &val, "Function")),
    }
}

/// Evaluates an argument that must be an object.
pub fn eval_object<H: Host>(arg: &Argument, st: &mut State, host: &mut H, depth: u64) -> (r:
    Result<Object, Exception>)
    requires
        old(st).storage.wf(),
    ensures
        final(st).storage.wf(),
        final(st).storage.scope() == old(st).storage.scope(),
        final(st).backtrace@ == old(st).backtrace@,
        !(*arg is FunctionCall) || old(st).exit_unwind_value.is_some() ==> final(st).storage
            == old(st).storage && final(st).exit_unwind_value == old(st).exit_unwind_value,
        depth > 0 && without_call(*arg, *old(st)) ==> kind_result(
            known_value(*arg, *old(st)),
            "Object"@,
            r,
            |a: Atom| match a { Atom::Object(x) => Some(x), _ => None },
        ),
    decreases depth,
{
    if depth == 0 {
        return Err(too_deep(st));
    }
    match eval(arg, st, host, depth - 1)? {
        Atom::Object(v) => Ok(v),
        val => Err(not_a(st, &val, "Object")),
    }
}

/// Evaluates an argument that must be a string (a list of characters); the
/// error raised otherwise has a fixed message.
pub fn eval_as_string<H: Host>(arg: &Argument, st: &mut State, host: &mut H, depth: u64) -> (r:
    Result<String, Exception>)
    requires
        old(st).storage.wf(),
    ensures
        final(st).storage.wf(),
        final(st).storage.scope() == old(st).storage.scope(),
        final(st).backtrace@ == old(st).backtrace@,
        !(*arg is FunctionCall) || old(st).exit_unwind_value.is_some() ==> final(st).storage
            == old(st).storage && final(st).exit_unwind_value == old(st).exit_unwind_value,
        depth > 0 && without_call(*arg, *old(st)) ==> match known_value(*arg, *old(st)) {
            Some(a) => match crate::atom::as_string_spec(a@) {
                Some(x) => r matches Ok(t) && t@ == x,
                None => r matches Err(e) && e.error@ == TypeError@ && e.msg@
                    == "{val} is not a list of chars"@,
            },
            None => r matches Err(e) && e.error@ == NameError@,
        },
    decreases depth,
{
    if depth == 0 {
        return Err(too_deep(st));
    }
    let v = eval(arg, st, host, depth - 1)?;
    match v.as_string() {
        Some(s) => Ok(s),
        None => Err(st.raise(TypeError, "{val} is not a list of chars")),
    }
}

/// The `Type` error for a value of the wrong kind: `<value> is not a <kind>`.
fn not_a(st: &State, val: &Atom, kind: &str) -> (e: Exception)
    ensures
        e.error@ == TypeError@,
        e.msg@ == crate::atom::display_text(val@) + " is not a "@ + kind@,
{
    let mut m: Vec<char> = Vec::new();
    push_chars(&mut m, &chars_of(val.to_string().as_str()));
    push_str(&mut m, " is not a ");
    push_str(&mut m, kind);
    st.raise(TypeError, string_from_chars(&m).as_str())
}

impl Argument {
    /// Evaluates this node (see [`eval`]).
    pub fn eval<H: Host>(&self, st: &mut State, host: &mut H) -> (r: Result<Atom, Exception>)
        requires
            old(st).storage.wf(),
        ensures
            final(st).storage.wf(),
            final(st).storage.scope() == old(st).storage.scope(),
            final(st).backtrace@ == old(st).backtrace@,
            old(st).exit_unwind_value.is_some() ==> r == Ok::<Atom, Exception>(Atom::Null) && *final(st) == *old(st),
            !(*self is FunctionCall) ==> final(st).storage == old(st).storage && final(st).exit_unwind_value
                == old(st).exit_unwind_value && final(st).backtrace@ == old(st).backtrace@
                && final(st).file_directory == old(st).file_directory && final(st).code == old(st).code
                && final(st).stl == old(st).stl && final(st).next_type_id == old(st).next_type_id,
            old(st).exit_unwind_value.is_none() && !(*self is FunctionCall) ==> match leaf_value(
                *self,
                *old(st),
            ) {
                Some(v) => r == Ok::<Atom, Exception>(v),
                None => r matches Err(e) && e.error@ == NameError@,
            },
            old(st).exit_unwind_value.is_none() ==> (*self matches Argument::FunctionCall(c, _)
                ==> unbound_call(c.name@, *old(st), r)),
            old(st).exit_unwind_value.is_none() && old(st).storage.well_scoped() && reserve(old(st).storage.scope()) + 5 * arg_size(self@) <= MAX_DEPTH ==> simple_result(
                simple_value(self@, env_of(old(st).storage@), ctx_of(*old(st))),
                *old(st),
                *final(st),
                r,
            ),
    {
        eval(self, st, host, MAX_DEPTH)
    }

    /// Evaluates this node, which must give a string (see [`eval_as_string`]).
    pub fn eval_as_string<H: Host>(&self, st: &mut State, host: &mut H) -> (r: Result<
        String,
        Exception,
    >)
        requires
            old(st).storage.wf(),
        ensures
            final(st).storage.wf(),
            final(st).storage.scope() == old(st).storage.scope(),
            final(st).backtrace@ == old(st).backtrace@,
            without_call(*self, *old(st)) ==> match known_value(*self, *old(st)) {
                Some(a) => match crate::atom::as_string_spec(a@) {
                    Some(x) => r matches Ok(t) && t@ == x,
                    None => r matches Err(e) && e.error@ == TypeError@ && e.msg@
                        == "{val} is not a list of chars"@,
                },
                None => r matches Err(e) && e.error@ == NameError@,
            },
    {
        eval_as_string(self, st, host, MAX_DEPTH)
    }
}

impl FunctionCall {
    /// Evaluates this call (see [`eval_call`]).
    pub fn eval<H: Host>(&self, st: &mut State, host: &mut H) -> (r: Result<Atom, Exception>)
        requires
            old(st).storage.wf(),
        ensures
            final(st).storage.wf(),
            final(st).storage.scope() == old(st).storage.scope(),
            final(st).backtrace@ == old(st).backtrace@,
            old(st).exit_unwind_value.is_some() ==> r == Ok::<Atom, Exception>(Atom::Null),
            old(st).exit_unwind_value.is_none() ==> unbound_call(self.name@, *old(st), r),
            old(st).exit_unwind_value.is_none() ==> bound_call(self.name@, self.args@, *old(st), *final(st), r),
            old(st).exit_unwind_value.is_none() ==> bound_defined(self.name@, self.args@, *old(st), *final(st), r, MAX_DEPTH - 2),
            old(st).exit_unwind_value.is_none() && old(st).storage.well_scoped() && reserve(old(st).storage.scope()) + 5 * args_size(args_view(self.args@, self.args@.len()), self.args@.len())
                + 4 <= MAX_DEPTH ==> simple_result(
                simple_call(self.name@, args_view(self.args@, self.args@.len()), env_of(old(st).storage@), ctx_of(*old(st)), doc_of(*old(st))),
                *old(st),
                *final(st),
                r,
            ),
    {
        eval_call(self, st, host, MAX_DEPTH)
    }
}

impl Function {
    /// Calls this function with unevaluated arguments (see [`call_function`]).
    pub fn call<H: Host>(&self, st: &mut State, args: &[Argument], host: &mut H) -> (r: Result<
        Atom,
        Exception,
    >)
        requires
            old(st).storage.wf(),
        ensures
            final(st).storage.wf(),
            final(st).storage.scope() == old(st).storage.scope(),
            final(st).backtrace@ == old(st).backtrace@,
            (self.0.argc matches Some(n) && n != args@.len()) ==> r is Err,
            self.0.argc is Some && self.0.argc.unwrap() != args@.len() ==> (r matches Err(e)
                && e.error@ == ArgumentError@ && e.msg@ == argc_mismatch_msg(
                self.0.argc.unwrap(),
                args@.len() as usize,
                match old(st).current_fn_name {
                    Some(s) => Some(s@),
                    None => None,
                },
            )),
            self.0.argc is Some && self.0.argc.unwrap() != args@.len() ==> *final(st) == *old(st),
            argc_fits(self.0.argc, args@.len()) ==> call_outcome(self.0.body, args@, *old(st), *final(st), r),
            argc_fits(self.0.argc, args@.len()) ==> (self.0.body matches FunctionBody::Defined { params, body }
                ==> defined_result(params@, body, args@, *old(st), *final(st), r, MAX_DEPTH - 1)),
            old(st).exit_unwind_value.is_none() && old(st).storage.well_scoped() && reserve(old(st).storage.scope()) + 5 * args_size(args_view(args@, args@.len()), args@.len()) + 3
                <= MAX_DEPTH ==> simple_result(
                simple_apply(crate::atom::fn_view(*self).body, self.0.argc, args_view(args@, args@.len()), env_of(old(st).storage@), ctx_of(*old(st)), doc_of(*old(st))),
                *old(st),
                *final(st),
                r,
            ),
    {
        call_function(self, args, st, host, MAX_DEPTH)
    }
}

} // verus!
