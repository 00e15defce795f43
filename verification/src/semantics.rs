//! The meaning of simple programs: literals, variables and calls of a set of
//! builtins (sequences, assignments, conditionals, loops, boolean operators,
//! comparisons, integer math and shifts, the list API, `exit` and the prelude
//! import) and of functions defined in the language, evaluated over the
//! values visible in storage.

use crate::argument::{ArgV, arg_size, args_size, lemma_args_size};
use crate::atom::{display_text, string_view, ty_id_spec, Atom, AtomV, FnBodyV, FnV};
use crate::builtins::fn_def::{all_variables, defined_argc, params_of, variadic_last};
use crate::equality::atom_eq;
use crate::atom_order::view_compare;
use crate::builtins::{builtin_argcs, builtin_names};
use crate::builtins::math::{int_math_spec, int_shift_spec};
use crate::builtins::list::{index_bound, list_mode_argc, INDEX, INSERT, LEN, REMOVE};
use crate::state::State;
use crate::storage::{StoredV, scoped_change, st_insert, st_lookup};
use vstd::prelude::*;

verus! {

/// The values visible in storage, by name.
pub open spec fn env_of(m: Map<Seq<char>, StoredV>) -> Map<Seq<char>, AtomV> {
    Map::new(|k: Seq<char>| st_lookup(m, k) is Some, |k: Seq<char>| st_lookup(m, k).unwrap()@)
}

/// Assigning a value changes exactly the value visible under its name.
pub proof fn lemma_env_insert(m: Map<Seq<char>, StoredV>, k: Seq<char>, a: Atom, scope: usize)
    ensures
        env_of(st_insert(m, k, a, scope)) == env_of(m).insert(k, a@),
{
    assert forall|j: Seq<char>| #[trigger] st_lookup(st_insert(m, k, a, scope), j) == if j == k {
        Some(a)
    } else {
        st_lookup(m, j)
    } by {
        if j == k {
            crate::storage::law_lookup_after_insert(m, k, a, scope);
        } else {
            crate::storage::law_insert_other(m, k, j, a, scope);
        }
    }
    assert(env_of(st_insert(m, k, a, scope)) =~= env_of(m).insert(k, a@));
}

/// What evaluation needs to know of a state besides the visible values:
/// whether its code is the standard library's, the current scope, and the
/// names bound to globals.
pub type Ctx = (bool, nat, Set<Seq<char>>);

/// The names bound to globals.
pub open spec fn globals_of(m: Map<Seq<char>, StoredV>) -> Set<Seq<char>> {
    Set::new(|k: Seq<char>| m.contains_key(k) && m[k] is Global)
}

/// Assigning a name keeps the names bound to globals.
pub proof fn lemma_globals_insert(m: Map<Seq<char>, StoredV>, k: Seq<char>, v: Atom, scope: usize)
    ensures
        globals_of(st_insert(m, k, v, scope)) == globals_of(m),
{
    assert(globals_of(st_insert(m, k, v, scope)) =~= globals_of(m));
}

/// Assigning names in turn makes their values visible in turn, and keeps the
/// names bound to globals.
pub proof fn lemma_env_insert_all(
    m: Map<Seq<char>, StoredV>,
    ks: Seq<(Seq<char>, Atom)>,
    scope: usize,
    names: Seq<Seq<char>>,
    vals: Seq<AtomV>,
)
    requires
        names.len() >= ks.len(),
        vals.len() >= ks.len(),
        forall|j: int| 0 <= j < ks.len() ==> names[j] == (#[trigger] ks[j]).0 && vals[j] == ks[j].1@,
    ensures
        env_of(crate::storage::st_insert_all(m, ks, scope)) == bind_env(env_of(m), names, vals, ks.len()),
        globals_of(crate::storage::st_insert_all(m, ks, scope)) == globals_of(m),
    decreases ks.len(),
{
    if ks.len() > 0 {
        let rest = ks.drop_last();
        assert forall|j: int| 0 <= j < rest.len() implies names[j] == (#[trigger] rest[j]).0 && vals[j] == rest[j].1@ by {
            assert(rest[j] == ks[j]);
        }
        lemma_env_insert_all(m, rest, scope, names, vals);
        let m0 = crate::storage::st_insert_all(m, rest, scope);
        assert(ks[ks.len() - 1] == ks.last());
        lemma_env_insert(m0, ks.last().0, ks.last().1, scope);
        lemma_globals_insert(m0, ks.last().0, ks.last().1, scope);
    }
}

/// A call of a defined function leaves no trace in its caller's scope: after
/// a simple call, every name that is not a global reads as the evaluation of
/// the arguments left it (the parameters and the body's own variables are
/// gone), no name appears or disappears, and `exit` was not called.
pub proof fn law_defined_call_restores(
    params: Seq<(Seq<char>, bool, bool)>,
    body: ArgV,
    args: Seq<ArgV>,
    env: Map<Seq<char>, AtomV>,
    cx: Ctx,
)
    requires
        simple_defined(params, body, args, env, cx) is Some,
    ensures
        simple_args(args, env, args.len(), cx) is Some,
        simple_defined(params, body, args, env, cx).unwrap().2 is None,
        simple_defined(params, body, args, env, cx).unwrap().1.dom() == simple_args(args, env, args.len(), cx).unwrap().1.dom(),
        forall|k: Seq<char>|
            simple_args(args, env, args.len(), cx).unwrap().1.contains_key(k) && !cx.2.contains(k)
                ==> #[trigger] simple_defined(params, body, args, env, cx).unwrap().1[k] == simple_args(
                args,
                env,
                args.len(),
                cx,
            ).unwrap().1[k],
{
    let e = simple_args(args, env, args.len(), cx).unwrap().1;
    let vals = simple_args(args, env, args.len(), cx).unwrap().0;
    let o = simple_value(body, bind_env(e, param_names(params), bound_vals(params, vals), params.len()), (cx.0, cx.1 + 1, cx.2));
    assert(o matches Some((_, _, None)));
    let eb = o.unwrap().1;
    assert(simple_defined(params, body, args, env, cx) == Some((o.unwrap().0, restore_env(e, eb, cx.2), None::<AtomV>)));
    assert(restore_env(e, eb, cx.2).dom() =~= e.dom());
}

/// Arguments that are literals or bound variables leave the visible values
/// as they were: with such arguments, a simple call of a defined function
/// (see [`law_defined_call_restores`]) leaves every name that is not a global
/// as it was before the call.
pub proof fn law_plain_args_keep_env(args: Seq<ArgV>, env: Map<Seq<char>, AtomV>, n: nat, cx: Ctx)
    requires
        n <= args.len(),
        forall|j: int| 0 <= j < args.len() ==> !((#[trigger] args[j]) is Call),
        simple_args(args, env, n, cx) is Some,
    ensures
        simple_args(args, env, n, cx).unwrap().1 == env,
    decreases n,
{
    if n > 0 {
        lemma_simple_args_prefix(args, env, n, (n - 1) as nat, cx);
        law_plain_args_keep_env(args, env, (n - 1) as nat, cx);
        let a = args[n - 1];
        assert(!(a is Call));
        assert(simple_args(args, env, (n - 1) as nat, cx).unwrap().1 == env);
        let prev = simple_args(args, env, (n - 1) as nat, cx).unwrap();
        assert(simple_value(a, env, cx) matches Some((_, e2, None)) && e2 == env);
        assert(simple_args(args, env, n, cx) == Some((prev.0.push(simple_value(a, env, cx).unwrap().0), env)));
    }
}

/// What the caller sees of a simple call of a defined function whose
/// arguments are literals or bound variables (what [`call_defined`]'s
/// contract gives with [`simple_result`]): the call succeeds, and afterwards
/// every name that is not a global is visible exactly where it was before,
/// with the value it had.
///
/// [`call_defined`]: crate::eval::call_defined
pub proof fn law_plain_call_leaves_caller_names(
    params: Seq<(Seq<char>, bool, bool)>,
    body: ArgV,
    args: Seq<ArgV>,
    before: State,
    after: State,
    r: Result<Atom, crate::exception::Exception>,
)
    requires
        forall|j: int| 0 <= j < args.len() ==> !((#[trigger] args[j]) is Call),
        simple_defined(params, body, args, env_of(before.storage@), ctx_of(before)) is Some,
        simple_result(simple_defined(params, body, args, env_of(before.storage@), ctx_of(before)), before, after, r),
    ensures
        r is Ok,
        forall|k: Seq<char>|
            !globals_of(before.storage@).contains(k) ==> (#[trigger] env_of(after.storage@).contains_key(k)
                == env_of(before.storage@).contains_key(k) && (env_of(before.storage@).contains_key(k) ==> env_of(
                after.storage@,
            )[k] == env_of(before.storage@)[k])),
{
    let env = env_of(before.storage@);
    let cx = ctx_of(before);
    law_defined_call_restores(params, body, args, env, cx);
    law_plain_args_keep_env(args, env, args.len(), cx);
}

/// Literal arguments evaluate to their own values.
pub proof fn lemma_literal_args_values(args: Seq<ArgV>, env: Map<Seq<char>, AtomV>, n: nat, cx: Ctx)
    requires
        n <= args.len(),
        forall|j: int| 0 <= j < args.len() ==> (#[trigger] args[j]) is Atom,
    ensures
        simple_args(args, env, n, cx) is Some,
        simple_args(args, env, n, cx).unwrap().0.len() == n,
        forall|j: int| 0 <= j < n ==> #[trigger] simple_args(args, env, n, cx).unwrap().0[j] == args[j]->Atom_0,
        simple_args(args, env, n, cx).unwrap().1 == env,
    decreases n,
{
    if n > 0 {
        lemma_literal_args_values(args, env, (n - 1) as nat, cx);
        let a = args[n - 1];
        assert(a is Atom);
        let prev = simple_args(args, env, (n - 1) as nat, cx).unwrap();
        assert(simple_value(a, env, cx) == Some((a->Atom_0, env, None::<AtomV>)));
        assert(simple_args(args, env, n, cx) == Some((prev.0.push(a->Atom_0), env)));
    }
}

/// A variadic parameter gets the values of all the arguments from its own
/// position on, in order: a function whose body gives back its variadic
/// parameter gives the list of those values (for literal arguments, the
/// literals themselves).
pub proof fn law_variadic_gets_remaining(
    params: Seq<(Seq<char>, bool, bool)>,
    body: ArgV,
    args: Seq<ArgV>,
    env: Map<Seq<char>, AtomV>,
    cx: Ctx,
)
    requires
        params.len() >= 1,
        params[params.len() - 1].1,
        body matches ArgV::Variable(n, _) && n == params[params.len() - 1].0,
        simple_defined(params, body, args, env, cx) is Some,
    ensures
        simple_args(args, env, args.len(), cx) is Some,
        simple_defined(params, body, args, env, cx).unwrap().0 == AtomV::List(
            simple_args(args, env, args.len(), cx).unwrap().0.subrange(params.len() - 1, args.len() as int),
        ),
        (forall|j: int| 0 <= j < args.len() ==> (#[trigger] args[j]) is Atom) ==> simple_defined(
            params,
            body,
            args,
            env,
            cx,
        ).unwrap().0 == AtomV::List(
            Seq::new((args.len() - (params.len() - 1)) as nat, |i: int| args[params.len() - 1 + i]->Atom_0),
        ),
{
    let e = simple_args(args, env, args.len(), cx).unwrap().1;
    let vals = simple_args(args, env, args.len(), cx).unwrap().0;
    lemma_simple_args_len(args, env, args.len(), cx);
    let k = params.len() - 1;
    let bv = bound_vals(params, vals);
    let envb = bind_env(e, param_names(params), bv, params.len());
    assert(envb == bind_env(e, param_names(params), bv, (params.len() - 1) as nat).insert(param_names(params)[k], bv[k]));
    assert(param_names(params)[k] == params[k].0);
    assert(bv[k] == AtomV::List(vals.subrange(k, vals.len() as int)));
    let o = simple_value(body, envb, (cx.0, cx.1 + 1, cx.2));
    assert(o == Some((bv[k], envb, None::<AtomV>)));
    if forall|j: int| 0 <= j < args.len() ==> (#[trigger] args[j]) is Atom {
        lemma_literal_args_values(args, env, args.len(), cx);
        assert(vals.subrange(k, vals.len() as int) =~= Seq::new(
            (args.len() - (params.len() - 1)) as nat,
            |i: int| args[params.len() - 1 + i]->Atom_0,
        ));
    }
}

/// The documentation comment of the call being evaluated in the state `st`
/// (empty where there is none).
pub open spec fn doc_of(st: State) -> Seq<char> {
    match st.current_doc_comment {
        Some(c) => c@,
        None => Seq::empty(),
    }
}

/// What evaluation needs to know of the state `st` (see [`Ctx`]).
pub open spec fn ctx_of(st: State) -> Ctx {
    (is_stl(st), st.storage.scope(), globals_of(st.storage@))
}

/// How many more calls of defined functions a simple program may nest from
/// the scope `scope`: calls nest at most 65535 deep.
pub open spec fn call_room(scope: nat) -> nat {
    if scope < 0x1_0000 {
        (0x1_0000 - scope) as nat
    } else {
        0
    }
}

/// The evaluation depth kept for the bodies of the calls that may still nest
/// from the scope `scope`: room for a body of up to 0x10_0000 units (five per
/// node of its syntax tree) for each of them.
pub open spec fn reserve(scope: nat) -> nat {
    call_room(scope) * 0x10_0000
}

/// The names of the parameters `ps` (name, whether variadic, whether lazy).
pub open spec fn param_names(ps: Seq<(Seq<char>, bool, bool)>) -> Seq<Seq<char>> {
    Seq::new(ps.len(), |j: int| ps[j].0)
}

/// The visible values `e` with the first `n` names assigned their values, in
/// turn (a later name wins over an earlier one that is the same).
pub open spec fn bind_env(e: Map<Seq<char>, AtomV>, names: Seq<Seq<char>>, vals: Seq<AtomV>, n: nat) -> Map<
    Seq<char>,
    AtomV,
>
    decreases n,
{
    if n == 0 {
        e
    } else {
        bind_env(e, names, vals, (n - 1) as nat).insert(names[n - 1], vals[n - 1])
    }
}

/// The visible values after a call of a defined function that was made with
/// the visible values `e` and whose body left the visible values `eb`: the
/// names of `e`, with the values they had, but the globals `g` with the
/// values the body left them (the scope of the call is gone).
pub open spec fn restore_env(e: Map<Seq<char>, AtomV>, eb: Map<Seq<char>, AtomV>, g: Set<Seq<char>>) -> Map<
    Seq<char>,
    AtomV,
> {
    Map::new(|k: Seq<char>| e.contains_key(k), |k: Seq<char>| if g.contains(k) && eb.contains_key(k) {
        eb[k]
    } else {
        e[k]
    })
}

/// Whether the parameters `ps` (name, whether variadic, whether lazy) take
/// `n` arguments in a simple call: none of them lazy or named like one of the
/// globals `g`, a variadic one only last; one argument per parameter, and any
/// number (even none) for a variadic last one.
pub open spec fn params_accept(ps: Seq<(Seq<char>, bool, bool)>, n: nat, g: Set<Seq<char>>) -> bool {
    &&& forall|j: int|
        0 <= j < ps.len() ==> !(#[trigger] ps[j]).2 && (ps[j].1 ==> j == ps.len() - 1) && !g.contains(ps[j].0)
    &&& if ps.len() > 0 && ps[ps.len() - 1].1 {
        n + 1 >= ps.len()
    } else {
        n == ps.len()
    }
}

/// The values the parameters `ps` get from the argument values `vals`: a
/// plain parameter the value at its own index, the variadic one the list of
/// the values from its index on.
pub open spec fn bound_vals(ps: Seq<(Seq<char>, bool, bool)>, vals: Seq<AtomV>) -> Seq<AtomV> {
    Seq::new(ps.len(), |j: int| if ps[j].1 {
        AtomV::List(vals.subrange(j, vals.len() as int))
    } else {
        vals[j]
    })
}

/// A simple call of a function defined with the parameters `params` (name,
/// whether variadic, whether lazy) and the body `body`: arguments that the
/// parameters accept (see [`params_accept`]), the call nesting within its
/// limit (see [`call_room`]) and the body small enough (see [`reserve`]). The
/// arguments are evaluated in turn, the parameters assigned their values
/// (see [`bound_vals`]) in a new scope and the body evaluated there, without calling `exit`; the call gives
/// the body's value, and afterwards the visible values are as the arguments
/// left them, but for the globals, which keep what the body assigned them.
pub open spec fn simple_defined(
    params: Seq<(Seq<char>, bool, bool)>,
    body: ArgV,
    args: Seq<ArgV>,
    env: Map<Seq<char>, AtomV>,
    cx: Ctx,
) -> Outcome
    decreases call_room(cx.1), args_size(args, args.len()) + 1, 1nat, 0nat,
{
    if cx.1 + 1 < 0x1_0000 && 5 * arg_size(body) + 10 <= 0x10_0000 && params_accept(params, args.len(), cx.2) {
        match simple_args(args, env, args.len(), cx) {
            Some((vals, e)) => match simple_value(
                body,
                bind_env(e, param_names(params), bound_vals(params, vals), params.len()),
                (cx.0, cx.1 + 1, cx.2),
            ) {
                Some((v, eb, None)) => Some((v, restore_env(e, eb, cx.2), None)),
                _ => None,
            },
            None => None,
        }
    } else {
        None
    }
}

/// What a simple program gives: its value, the values visible afterwards,
/// and the value given to `exit` if it was called.
pub type Outcome = Option<(AtomV, Map<Seq<char>, AtomV>, Option<AtomV>)>;

/// The value, the visible values and the exit value after evaluating `a`,
/// where `a` is simple: a literal, a bound variable, or a call of a function
/// bound to one of the builtins that [`simple_builtin`] describes (the
/// prelude import only where the code is the standard library's, as `cx.0`
/// says) or to a function defined in the language (see [`simple_defined`]),
/// in the context `cx` (see [`Ctx`]). `None` for any other program.
pub open spec fn simple_value(a: ArgV, env: Map<Seq<char>, AtomV>, cx: Ctx) -> Outcome
    decreases call_room(cx.1), arg_size(a), 4nat, 0nat,
{
    match a {
        ArgV::Atom(v, _) => Some((v, env, None)),
        ArgV::Variable(n, _) => if env.contains_key(n) {
            Some((env[n], env, None))
        } else {
            None
        },
        ArgV::Call(name, args, doc, _) => simple_call(name, args, env, cx, doc),
    }
}

/// A simple call of the function bound to `name` (see [`simple_value`]).
pub open spec fn simple_call(name: Seq<char>, args: Seq<ArgV>, env: Map<Seq<char>, AtomV>, cx: Ctx, doc: Seq<char>) -> Outcome
    decreases call_room(cx.1), args_size(args, args.len()) + 1, 3nat, 0nat,
{
    if env.contains_key(name) && env[name] is Function {
        simple_apply(env[name]->Function_0.body, env[name]->Function_0.argc, args, env, cx, doc)
    } else {
        None
    }
}

/// A simple call of a function with the body `body` and the argument count
/// `argc`: a builtin or a defined function (see [`simple_defined`]) whose
/// argument count fits.
pub open spec fn simple_apply(
    body: FnBodyV,
    argc: Option<usize>,
    args: Seq<ArgV>,
    env: Map<Seq<char>, AtomV>,
    cx: Ctx,
    doc: Seq<char>,
) -> Outcome
    decreases call_room(cx.1), args_size(args, args.len()) + 1, 2nat, 0nat,
{
    match body {
        FnBodyV::Builtin(k) => if argc == builtin_argcs()[k as int] && match argc {
            Some(n) => n == args.len(),
            None => true,
        } {
            simple_builtin(k, args, env, cx, doc)
        } else {
            None
        },
        FnBodyV::Defined(ps, b) => if match argc {
            Some(n) => n == args.len(),
            None => true,
        } {
            simple_defined(ps, *b, args, env, cx)
        } else {
            None
        },
        FnBodyV::Other => None,
    }
}

/// A simple call of the builtin at index `k`: `_` evaluates its arguments in
/// turn and gives the last value (`null` for none); `=` evaluates its second
/// argument and assigns it to the variable given first, giving `null`;
/// `ifelse` evaluates its condition, a boolean, and then the branch it
/// selects; `__builtin_int_math` evaluates its mode and operands, integers,
/// and gives the result of the operation where it does not fail, and
/// `__builtin_int_shift` likewise for shifts; `write` evaluates its operand
/// and gives `null` (what it writes goes to the outside world); `||` and
/// `&&` evaluate their first operand, a boolean, and the second (also a
/// boolean) only where the first does not decide; `__builtin_atom_eq`
/// compares the values of its operands, and `__builtin_atom_cmp` orders them
/// (see [`simple_compare`]); `printable` gives the display text
/// of its operand's value as a string; `doc` and `argc` give the
/// documentation (as a string) and the argument count (`null` for any) of
/// the function their operand gives; `__builtin_cr` gives a carriage
/// return; `while` and `for_in` run their loops (see [`simple_while`] and
/// [`simple_for`]); `__builtin_list_api` evaluates its arguments in turn
/// and gives what [`list_view_result`] says; `try_except` gives the value of its body, which does not
/// fail; `type_id` gives the type id of its operand's value; `exit` evaluates its operand and records it as the exit value,
/// giving `null`; the prelude import does nothing for the standard library's
/// code; `def` binds a name to the function it defines (see [`defined_fn`]),
/// with the documentation `doc` of the call, giving `null`, and `fn` gives
/// that function. Apart from `_` and `=`, an operand that calls `exit` is not
/// simple.
pub open spec fn simple_builtin(k: usize, args: Seq<ArgV>, env: Map<Seq<char>, AtomV>, cx: Ctx, doc: Seq<char>) -> Outcome
    decreases call_room(cx.1), args_size(args, args.len()) + 1, 1nat, 0nat,
{
    if k == 0 {
        simple_seq(args, env, args.len(), cx)
    } else if k == 1 && args.len() == 2 && args[0] is Variable {
        proof {
            lemma_args_size(args, args.len(), 1);
        }
        match simple_value(args[1], env, cx) {
            Some((v, e, x)) => Some((AtomV::Null, e.insert(args[0]->Variable_0, v), x)),
            None => None,
        }
    } else if k == 2 && args.len() == 3 {
        proof {
            lemma_args_size(args, args.len(), 0);
            lemma_args_size(args, args.len(), 1);
            lemma_args_size(args, args.len(), 2);
        }
        match simple_value(args[0], env, cx) {
            Some((AtomV::Bool(b), e, None)) => if b {
                simple_value(args[1], e, cx)
            } else {
                simple_value(args[2], e, cx)
            },
            _ => None,
        }
    } else if k == 32 && args.len() == 3 {
        proof {
            lemma_args_size(args, args.len(), 0);
            lemma_args_size(args, args.len(), 1);
            lemma_args_size(args, args.len(), 2);
        }
        match simple_value(args[0], env, cx) {
            Some((AtomV::Int(m), e1, None)) => match simple_value(args[1], e1, cx) {
                Some((AtomV::Int(a), e2, None)) => match simple_value(args[2], e2, cx) {
                    Some((AtomV::Int(b), e3, None)) => if 0 <= m <= 5 {
                        match int_math_spec(m as u8, a, b) {
                            Some(v) => Some((AtomV::Int(v), e3, None)),
                            None => None,
                        }
                    } else {
                        None
                    },
                    _ => None,
                },
                _ => None,
            },
            _ => None,
        }
    } else if (k == 15 || k == 16) && args.len() == 2 {
        proof {
            lemma_args_size(args, args.len(), 0);
            lemma_args_size(args, args.len(), 1);
        }
        match simple_value(args[0], env, cx) {
            Some((AtomV::Bool(a), e, None)) => if (k == 15 && a) || (k == 16 && !a) {
                Some((AtomV::Bool(a), e, None))
            } else {
                match simple_value(args[1], e, cx) {
                    Some((AtomV::Bool(b), e2, None)) => Some((AtomV::Bool(b), e2, None)),
                    _ => None,
                }
            },
            _ => None,
        }
    } else if k == 22 && args.len() == 2 {
        proof {
            lemma_args_size(args, args.len(), 0);
            lemma_args_size(args, args.len(), 1);
        }
        match simple_value(args[0], env, cx) {
            Some((a, e1, None)) => match simple_value(args[1], e1, cx) {
                Some((b, e2, None)) => Some((AtomV::Bool(atom_eq(a, b)), e2, None)),
                _ => None,
            },
            _ => None,
        }
    } else if k == 9 && args.len() == 1 {
        proof {
            lemma_args_size(args, args.len(), 0);
        }
        match simple_value(args[0], env, cx) {
            Some((v, e, None)) => Some((string_view(display_text(v)), e, None)),
            _ => None,
        }
    } else if (k == 11 || k == 12) && args.len() == 1 {
        proof {
            lemma_args_size(args, args.len(), 0);
        }
        match simple_value(args[0], env, cx) {
            Some((AtomV::Function(f), e, None)) => if k == 11 {
                Some((string_view(f.doc), e, None))
            } else {
                match f.argc {
                    Some(n) => if n <= i64::MAX {
                        Some((AtomV::Int(n as i64), e, None))
                    } else {
                        None
                    },
                    None => Some((AtomV::Null, e, None)),
                }
            },
            _ => None,
        }
    } else if k == 3 && args.len() == 2 {
        proof {
            lemma_args_size(args, args.len(), 0);
            lemma_args_size(args, args.len(), 1);
            assert(args_size(args, 0) == 0);
            assert(args_size(args, 1) == arg_size(args[0]));
            assert(args_size(args, 2) == arg_size(args[0]) + arg_size(args[1]));
        }
        simple_while(args[0], args[1], env, cx, 0xffff_ffff_ffff_ffff)
    } else if k == 10 && args.len() == 3 && args[1] is Variable {
        proof {
            lemma_args_size(args, args.len(), 0);
            lemma_args_size(args, args.len(), 2);
            assert(args_size(args, 0) == 0);
            assert(args_size(args, 1) == arg_size(args[0]));
            assert(args_size(args, 2) == arg_size(args[0]) + arg_size(args[1]));
            assert(args_size(args, 3) == arg_size(args[0]) + arg_size(args[1]) + arg_size(args[2]));
        }
        match simple_value(args[0], env, cx) {
            Some((AtomV::List(items), e, None)) => simple_for(items, args[1]->Variable_0, args[2], e, cx, 0),
            _ => None,
        }
    } else if k == 8 && (args.len() == 2 || (args.len() == 3 && args[2] is Variable)) {
        proof {
            lemma_args_size(args, args.len(), 0);
        }
        simple_value(args[0], env, cx)
    } else if k == 29 && args.len() == 1 {
        proof {
            lemma_args_size(args, args.len(), 0);
        }
        match simple_value(args[0], env, cx) {
            Some((v, e, None)) => Some((AtomV::Int(ty_id_spec(v)), e, None)),
            _ => None,
        }
    } else if k == 35 {
        simple_list_api(args, env, cx)
    } else if k == 23 {
        simple_compare(args, env, cx)
    } else if k == 33 && args.len() == 3 {
        proof {
            lemma_args_size(args, args.len(), 0);
            lemma_args_size(args, args.len(), 1);
            lemma_args_size(args, args.len(), 2);
        }
        match simple_value(args[0], env, cx) {
            Some((AtomV::Int(m), e1, None)) => if 0 <= m <= 1 {
                match simple_value(args[1], e1, cx) {
                    Some((AtomV::Int(a), e2, None)) => match simple_value(args[2], e2, cx) {
                        Some((AtomV::Int(b), e3, None)) => if 0 <= b <= u32::MAX {
                            match int_shift_spec(m as u8, a, b as u32) {
                                Some(v) => Some((AtomV::Int(v), e3, None)),
                                None => None,
                            }
                        } else {
                            None
                        },
                        _ => None,
                    },
                    _ => None,
                }
            } else {
                None
            },
            _ => None,
        }
    } else if k == 14 && args.len() == 1 {
        proof {
            lemma_args_size(args, args.len(), 0);
        }
        match simple_value(args[0], env, cx) {
            Some((_, e, None)) => Some((AtomV::Null, e, None)),
            _ => None,
        }
    } else if k == 17 && args.len() >= 2 && args[0] is Variable && defines(args.subrange(1, args.len() - 1)) {
        Some(
            (
                AtomV::Null,
                env.insert(args[0]->Variable_0, defined_fn(doc, args.subrange(1, args.len() - 1), args[args.len() - 1])),
                None,
            ),
        )
    } else if k == 18 && args.len() >= 1 && defines(args.subrange(0, args.len() - 1)) {
        Some((defined_fn(doc, args.subrange(0, args.len() - 1), args[args.len() - 1]), env, None))
    } else if k == 24 && args.len() == 0 {
        Some((AtomV::Char('\r'), env, None))
    } else if k == 5 && args.len() == 1 {
        proof {
            lemma_args_size(args, args.len(), 0);
        }
        match simple_value(args[0], env, cx) {
            Some((v, e, None)) => Some((AtomV::Null, e, Some(v))),
            _ => None,
        }
    } else if k == 36 && args.len() == 0 && cx.0 {
        Some((AtomV::Null, env, None))
    } else {
        None
    }
}

/// Whether the parameter list `names` of a definition is accepted: each
/// parameter a variable, and a variadic one only last.
pub open spec fn defines(names: Seq<ArgV>) -> bool {
    all_variables(names) && variadic_last(params_of(names))
}

/// The function that `def` or `fn` defines with the documentation `doc`, the
/// parameter list `names` and the body `body`.
pub open spec fn defined_fn(doc: Seq<char>, names: Seq<ArgV>, body: ArgV) -> AtomV {
    AtomV::Function(
        FnV {
            doc: doc,
            argc: defined_argc(params_of(names)),
            body: FnBodyV::Defined(params_of(names), Box::new(body)),
        },
    )
}

/// A `while` loop with the condition `cond` and the body `body`, allowed
/// `fuel` more rounds: the condition, a boolean, is evaluated; where it is
/// false the loop ends with `null`, else the body is evaluated and the loop
/// goes on. `None` where the rounds run out.
pub open spec fn simple_while(cond: ArgV, body: ArgV, env: Map<Seq<char>, AtomV>, cx: Ctx, fuel: nat) -> Outcome
    decreases call_room(cx.1), arg_size(cond) + arg_size(body), 0nat, fuel,
{
    if fuel == 0 {
        None
    } else {
        match simple_value(cond, env, cx) {
            Some((AtomV::Bool(false), e, None)) => Some((AtomV::Null, e, None)),
            Some((AtomV::Bool(true), e, None)) => match simple_value(body, e, cx) {
                Some((_, e2, None)) => simple_while(cond, body, e2, cx, (fuel - 1) as nat),
                _ => None,
            },
            _ => None,
        }
    }
}

/// A `for_in` loop over the elements `items` from index `n`: each element is
/// assigned to `var` and the body evaluated; the loop gives `null`.
pub open spec fn simple_for(
    items: Seq<AtomV>,
    var: Seq<char>,
    body: ArgV,
    env: Map<Seq<char>, AtomV>,
    cx: Ctx,
    n: nat,
) -> Outcome
    decreases call_room(cx.1), arg_size(body) + 1, 0nat, items.len() - n,
{
    if n >= items.len() {
        Some((AtomV::Null, env, None))
    } else {
        match simple_value(body, env.insert(var, items[n as int]), cx) {
            Some((_, e, None)) => simple_for(items, var, body, e, cx, n + 1),
            _ => None,
        }
    }
}

/// The values of the first `n` arguments, evaluated in turn, and the visible
/// values afterwards; `None` where one is not simple or calls `exit`.
pub open spec fn simple_args(args: Seq<ArgV>, env: Map<Seq<char>, AtomV>, n: nat, cx: Ctx) -> Option<
    (Seq<AtomV>, Map<Seq<char>, AtomV>),
>
    decreases call_room(cx.1), args_size(args, n), 5nat, 0nat,
{
    if n == 0 {
        Some((Seq::empty(), env))
    } else if n > args.len() {
        None
    } else {
        proof {
            lemma_args_size(args, n, n - 1);
        }
        match simple_args(args, env, (n - 1) as nat, cx) {
            Some((vs, e)) => match simple_value(args[n - 1], e, cx) {
                Some((v, e2, None)) => Some((vs.push(v), e2)),
                _ => None,
            },
            None => None,
        }
    }
}

/// A simple call of `__builtin_atom_cmp`: its mode (0 to 3) and operands
/// evaluated in turn, and whether the operands, which must be ordered,
/// satisfy the mode (see [`view_compare`]).
pub open spec fn simple_compare(args: Seq<ArgV>, env: Map<Seq<char>, AtomV>, cx: Ctx) -> Outcome
    decreases call_room(cx.1), args_size(args, args.len()) + 1, 0nat, 0nat,
{
    if args.len() == 3 {
        match simple_args(args, env, 3, cx) {
            Some((vals, e)) => match vals[0] {
                AtomV::Int(m) => if 0 <= m <= 3 {
                    match view_compare(m, vals[1], vals[2]) {
                        Some(b) => Some((AtomV::Bool(b), e, None)),
                        None => None,
                    }
                } else {
                    None
                },
                _ => None,
            },
            None => None,
        }
    } else {
        None
    }
}

/// The scope a state is in, as a `usize`.
pub open spec fn scope_of(st: State) -> usize {
    st.storage.scope() as usize
}

/// A simple call of `__builtin_list_api`: its arguments (two to four)
/// evaluated in turn, and what [`list_view_result`] says of their values.
pub open spec fn simple_list_api(args: Seq<ArgV>, env: Map<Seq<char>, AtomV>, cx: Ctx) -> Outcome
    decreases call_room(cx.1), args_size(args, args.len()) + 1, 0nat, 0nat,
{
    if 2 <= args.len() <= 4 {
        match simple_args(args, env, args.len(), cx) {
            Some((vals, e)) => match list_view_result(vals) {
                Some(v) => Some((v, e, None)),
                None => None,
            },
            None => None,
        }
    } else {
        None
    }
}

/// The values of a prefix of simply evaluated arguments are a prefix of their
/// values.
pub proof fn lemma_simple_args_prefix(args: Seq<ArgV>, env: Map<Seq<char>, AtomV>, n: nat, k: nat, cx: Ctx)
    requires
        simple_args(args, env, n, cx) is Some,
        k <= n,
    ensures
        simple_args(args, env, k, cx) is Some,
        simple_args(args, env, k, cx).unwrap().0.len() == k,
        simple_args(args, env, n, cx).unwrap().0.len() == n,
        simple_args(args, env, k, cx).unwrap().0 == simple_args(args, env, n, cx).unwrap().0.take(k as int),
    decreases n - k,
{
    lemma_simple_args_len(args, env, n, cx);
    if k < n {
        lemma_simple_args_prefix(args, env, (n - 1) as nat, k, cx);
        let vs = simple_args(args, env, (n - 1) as nat, cx).unwrap().0;
        assert(simple_args(args, env, n, cx).unwrap().0.take((n - 1) as int) =~= vs);
        assert(simple_args(args, env, n, cx).unwrap().0.take(k as int) =~= vs.take(k as int));
    } else {
        assert(simple_args(args, env, n, cx).unwrap().0.take(n as int) =~= simple_args(args, env, n, cx).unwrap().0);
    }
}

/// The argument at index `k` of simply evaluated arguments is evaluated in
/// the visible values left by the ones before it, giving its value and the
/// visible values the next one sees.
pub proof fn lemma_simple_args_step(args: Seq<ArgV>, env: Map<Seq<char>, AtomV>, k: nat, n: nat, cx: Ctx)
    requires
        simple_args(args, env, n, cx) is Some,
        k < n,
    ensures
        simple_args(args, env, k, cx) is Some,
        simple_args(args, env, k + 1, cx) is Some,
        simple_value(args[k as int], simple_args(args, env, k, cx).unwrap().1, cx) == Some(
            (
                simple_args(args, env, n, cx).unwrap().0[k as int],
                simple_args(args, env, k + 1, cx).unwrap().1,
                None::<AtomV>,
            ),
        ),
{
    lemma_simple_args_prefix(args, env, n, k + 1, cx);
    lemma_simple_args_prefix(args, env, n, k, cx);
    lemma_simple_args_len(args, env, k, cx);
    let vs = simple_args(args, env, k + 1, cx).unwrap().0;
    assert(vs[k as int] == simple_args(args, env, n, cx).unwrap().0.take((k + 1) as int)[k as int]);
}

/// Simply evaluated arguments have one value each.
pub proof fn lemma_simple_args_len(args: Seq<ArgV>, env: Map<Seq<char>, AtomV>, n: nat, cx: Ctx)
    requires
        simple_args(args, env, n, cx) is Some,
    ensures
        simple_args(args, env, n, cx).unwrap().0.len() == n,
    decreases n,
{
    if n > 0 {
        lemma_simple_args_len(args, env, (n - 1) as nat, cx);
    }
}

/// What the list API gives, where it succeeds, for the values of its
/// arguments (see [`crate::builtins::list::list_api_values`]): the length, the
/// element at an index, or the list without it or with an element inserted
/// before it.
pub open spec fn list_view_result(vals: Seq<AtomV>) -> Option<AtomV> {
    match vals[0] {
        AtomV::Int(m) => if LEN <= m <= INSERT && vals.len() - 1 == list_mode_argc(m) {
            match vals[1] {
                AtomV::List(items) => if m == LEN {
                    if items.len() <= i64::MAX {
                        Some(AtomV::Int(items.len() as i64))
                    } else {
                        None
                    }
                } else {
                    match vals[2] {
                        AtomV::Int(i) => if items.len() < usize::MAX && 0 <= i < index_bound(m, items.len()) {
                            if m == INDEX {
                                Some(items[i as int])
                            } else if m == REMOVE {
                                Some(AtomV::List(items.remove(i as int)))
                            } else {
                                Some(AtomV::List(items.insert(i as int, vals[3])))
                            }
                        } else {
                            None
                        },
                        _ => None,
                    }
                },
                _ => None,
            }
        } else {
            None
        },
        _ => None,
    }
}

/// The first `n` arguments evaluated in turn: the last value (`null` for
/// none) and the visible values afterwards. Once `exit` was called, the
/// remaining arguments are not evaluated and give `null`.
pub open spec fn simple_seq(args: Seq<ArgV>, env: Map<Seq<char>, AtomV>, n: nat, cx: Ctx) -> Outcome
    decreases call_room(cx.1), args_size(args, n), 5nat, 0nat,
{
    if n == 0 {
        Some((AtomV::Null, env, None))
    } else if n > args.len() {
        None
    } else {
        proof {
            lemma_args_size(args, n, n - 1);
        }
        match simple_seq(args, env, (n - 1) as nat, cx) {
            Some((_, e, None)) => simple_value(args[n - 1], e, cx),
            Some((_, e, Some(w))) => Some((AtomV::Null, e, Some(w))),
            None => None,
        }
    }
}

/// A simple sequence of `n` arguments has simple prefixes.
pub proof fn lemma_simple_seq_prefix(args: Seq<ArgV>, env: Map<Seq<char>, AtomV>, n: nat, k: nat, cx: Ctx)
    requires
        simple_seq(args, env, n, cx) is Some,
        k <= n,
    ensures
        simple_seq(args, env, k, cx) is Some,
    decreases n - k,
{
    if k < n {
        lemma_simple_seq_prefix(args, env, (n - 1) as nat, k, cx);
    }
}

/// What evaluating a simple program in the state `before` gives: `Ok` of its
/// value, with the visible values it leaves, the bindings changed only by
/// assignments in the current scope, the value given to `exit` if it was
/// called, and the directory unchanged. Nothing is said of other programs.
pub open spec fn simple_result(o: Outcome, before: State, after: State, r: Result<Atom, crate::exception::Exception>) -> bool {
    match o {
        Some((v, e, x)) => r matches Ok(y) && y@ == v && simple_state(before, after, e, x),
        None => true,
    }
}

/// Whether the value given to `exit` in a state is `x`: none where `x` is
/// `None`.
pub open spec fn exit_matches(ex: Option<Result<Atom, crate::exception::Exception>>, x: Option<AtomV>) -> bool {
    match x {
        Some(w) => ex matches Some(Ok(a)) && a@ == w,
        None => ex.is_none(),
    }
}

/// The state after a simple program that leaves the visible values `e` and
/// the exit value `x`: the values are visible, the bindings changed only by
/// assignments in the current scope (or left empty by a call's scope), the
/// exit value is `x`, the directory, the scope and the globals' names are
/// unchanged, and the bindings are well scoped.
pub open spec fn simple_state(before: State, after: State, e: Map<Seq<char>, AtomV>, x: Option<AtomV>) -> bool {
    &&& env_of(after.storage@) == e
    &&& scoped_change(before.storage@, after.storage@, before.storage.scope() as usize)
    &&& exit_matches(after.exit_unwind_value, x)
    &&& after.file_directory == before.file_directory
    &&& after.storage.scope() == before.storage.scope()
    &&& globals_of(after.storage@) == globals_of(before.storage@)
    &&& after.storage.well_scoped()
}

/// What a whole program gives: the value given to `exit` if it was called,
/// else the value of the program.
pub open spec fn final_value(v: AtomV, x: Option<AtomV>) -> AtomV {
    match x {
        Some(w) => w,
        None => v,
    }
}

/// What running a simple program in the state `before` gives: `Ok` of its
/// final value (see [`final_value`]), with the state after it as
/// [`simple_state`] says.
pub open spec fn run_result(o: Outcome, before: State, after: State, r: Result<Atom, crate::exception::Exception>) -> bool {
    match o {
        Some((v, e, x)) => r matches Ok(y) && y@ == final_value(v, x) && simple_state(before, after, e, x),
        None => true,
    }
}

/// Whether the code run by a state is the standard library's.
pub open spec fn is_stl(st: State) -> bool {
    st.file_directory is InternedSTL
}

/// The visible values bind each builtin name to that builtin, with its
/// argument count, and nothing else.
pub open spec fn builtin_env(env: Map<Seq<char>, AtomV>) -> bool {
    &&& forall|k: int|
        0 <= k < builtin_names().len() ==> #[trigger] env.contains_key(builtin_names()[k])
            && (env[builtin_names()[k]] matches AtomV::Function(f) && (f.body matches FnBodyV::Builtin(
            j,
        ) && 0 <= j < builtin_names().len() && builtin_names()[j as int] == builtin_names()[k]
            && f.argc == builtin_argcs()[j as int]))
    &&& forall|n: Seq<char>| #[trigger] env.contains_key(n) ==> builtin_names().contains(n)
}

} // verus!
