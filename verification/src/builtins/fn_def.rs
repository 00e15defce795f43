//! Defining functions in the language: parameter markers, the arity of a
//! definition and the argument checks of a call.

use crate::argument::{Argument, ArgV};
use crate::atom::{Atom, Function, FunctionBody};
use crate::exception::{ArgumentError, Exception};
use crate::span::Span;
use crate::text::{chars_of, nat_digits, push_str, push_u64, string_from_chars};
use vstd::prelude::*;

verus! {

/// A parameter of a defined function: its name and whether it is variadic
/// (written `[name]`) and lazy (written `$name`).
#[derive(Debug)]
pub struct FnArgument {
    /// The name, without the markers.
    pub name: String,
    /// Whether it collects all remaining arguments into a list.
    pub variadic: bool,
    /// Whether its arguments are evaluated only when used.
    pub lazy: bool,
}

impl Clone for FnArgument {
    fn clone(&self) -> (r: Self)
        ensures
            r.name@ == self.name@,
            r.variadic == self.variadic,
            r.lazy == self.lazy,
    {
        FnArgument { name: string_from_chars(&chars_of(self.name.as_str())), variadic: self.variadic, lazy: self.lazy }
    }
}

/// Whether a parameter as written is variadic: enclosed in `[` and `]`.
pub open spec fn is_variadic_text(s: Seq<char>) -> bool {
    s.len() >= 2 && s[0] == '[' && s[s.len() - 1] == ']'
}

/// The parameter text without the variadic brackets.
pub open spec fn unbracketed(s: Seq<char>) -> Seq<char> {
    if is_variadic_text(s) {
        s.subrange(1, s.len() - 1)
    } else {
        s
    }
}

/// Whether a parameter as written is lazy: after removing the brackets, it
/// starts with `$`.
pub open spec fn is_lazy_text(s: Seq<char>) -> bool {
    unbracketed(s).len() >= 1 && unbracketed(s)[0] == '$'
}

/// The name of a parameter as written, without its markers.
pub open spec fn param_name(s: Seq<char>) -> Seq<char> {
    if is_lazy_text(s) {
        unbracketed(s).drop_first()
    } else {
        unbracketed(s)
    }
}

impl FnArgument {
    /// Reads a parameter as written: `[name]` is variadic, `$name` is lazy,
    /// `[$name]` is both.
    pub fn new(name: &str) -> (a: FnArgument)
        ensures
            a.name@ == param_name(name@),
            a.variadic == is_variadic_text(name@),
            a.lazy == is_lazy_text(name@),
    {
        let cs = chars_of(name);
        let n = cs.len();
        let variadic = n >= 2 && cs[0] == '[' && cs[n - 1] == ']';
        let (lo, hi): (usize, usize) = if variadic {
            (1, n - 1)
        } else {
            (0, n)
        };
        assert(cs@.subrange(lo as int, hi as int) =~= unbracketed(name@));
        let lazy = lo < hi && cs[lo] == '$';
        let start: usize = if lazy {
            lo + 1
        } else {
            lo
        };
        let mut out: Vec<char> = Vec::new();
        let mut i: usize = start;
        while i < hi
            invariant
                start <= i <= hi <= cs@.len(),
                out@ == cs@.subrange(start as int, i as int),
            decreases hi - i,
        {
            out.push(cs[i]);
            i = i + 1;
            assert(out@ =~= cs@.subrange(start as int, i as int));
        }
        assert(out@ =~= param_name(name@));
        FnArgument { name: string_from_chars(&out), variadic, lazy }
    }
}

/// The parameters that a definition's argument names give.
pub open spec fn params_of(names: Seq<ArgV>) -> Seq<(Seq<char>, bool, bool)> {
    Seq::new(
        names.len(),
        |k: int|
            (
                param_name(names[k]->Variable_0),
                is_variadic_text(names[k]->Variable_0),
                is_lazy_text(names[k]->Variable_0),
            ),
    )
}

/// Whether a parameter, as the model of [`params_of`], matches a value.
pub open spec fn param_matches(p: FnArgument, m: (Seq<char>, bool, bool)) -> bool {
    p.name@ == m.0 && p.variadic == m.1 && p.lazy == m.2
}

/// The index of the first variadic parameter, if any.
pub open spec fn first_variadic(ps: Seq<(Seq<char>, bool, bool)>) -> Option<int> {
    if exists|k: int| 0 <= k < ps.len() && ps[k].1 {
        Some(choose|k: int| 0 <= k < ps.len() && ps[k].1 && forall|j: int| 0 <= j < k ==> !ps[j].1)
    } else {
        None
    }
}

/// Whether the parameters are well placed: a variadic one may only be last.
pub open spec fn variadic_last(ps: Seq<(Seq<char>, bool, bool)>) -> bool {
    forall|k: int| 0 <= k < ps.len() - 1 ==> !(#[trigger] ps[k]).1
}

/// The number of arguments a definition with these parameters takes: all of
/// them, or any number when the last one is variadic.
pub open spec fn defined_argc(ps: Seq<(Seq<char>, bool, bool)>) -> Option<usize> {
    if ps.len() > 0 && ps[ps.len() - 1].1 {
        None
    } else {
        Some(ps.len() as usize)
    }
}

/// Whether every argument of a definition's parameter list is a variable.
pub open spec fn all_variables(names: Seq<ArgV>) -> bool {
    forall|k: int| 0 <= k < names.len() ==> (#[trigger] names[k]) is Variable
}

/// Defines a function from its parameter list and body, as `def` and `fn` do.
///
/// Each parameter must be a variable (else an `Argument` error with the
/// message "Error during definition: invalid args were given!"); a variadic
/// parameter must be the last one (else an `Argument` error). The function
/// takes exactly as many arguments as there are parameters, or any number when
/// the last is variadic, and carries `doc` as its documentation.
pub fn define_function(body: &Argument, fn_args: &[Argument], doc: &str, backtrace: &[Span]) -> (r:
    Result<Atom, Exception>)
    requires
        fn_args@.len() < usize::MAX,
    ensures
        !all_variables(fn_args@.map_values(|a: Argument| a@)) ==> (r matches Err(e) && {
            &&& e.error@ == ArgumentError@
            &&& e.msg@ == "Error during definition: invalid args were given!"@
        }),
        all_variables(fn_args@.map_values(|a: Argument| a@)) ==> {
            let ps = params_of(fn_args@.map_values(|a: Argument| a@));
            &&& !variadic_last(ps) ==> (r matches Err(e) && {
                &&& e.error@ == ArgumentError@
                &&& e.msg@ == "variadic argument must be the last of the fn arguments"@
            })
            &&& variadic_last(ps) ==> (r matches Ok(Atom::Function(f)) && {
                &&& f.0.doc@ == doc@
                &&& f.0.argc == defined_argc(ps)
                &&& f.0.body matches FunctionBody::Defined { params, body: b } && {
                    &&& b@ == body@
                    &&& params@.len() == ps.len()
                    &&& forall|k: int| 0 <= k < ps.len() ==> param_matches(#[trigger] params@[k], ps[k])
                }
            })
        },
        r matches Err(e) ==> e.backtrace.is_some() && e.backtrace.unwrap()@ == backtrace@,
{
    let ghost names = fn_args@.map_values(|a: Argument| a@);
    let mut params: Vec<FnArgument> = Vec::new();
    let mut i: usize = 0;
    while i < fn_args.len()
        invariant
            0 <= i <= fn_args@.len(),
            names == fn_args@.map_values(|a: Argument| a@),
            forall|k: int| 0 <= k < i ==> (#[trigger] names[k]) is Variable,
            params@.len() == i,
            forall|k: int|
                0 <= k < i ==> param_matches(
                    #[trigger] params@[k],
                    (
                        param_name(names[k]->Variable_0),
                        is_variadic_text(names[k]->Variable_0),
                        is_lazy_text(names[k]->Variable_0),
                    ),
                ),
        decreases fn_args@.len() - i,
    {
        let name = fn_args[i].variable(
            "Error during definition: invalid args were given!",
            backtrace,
        );
        match name {
            Ok(n) => {
                assert(names[i as int] == fn_args@[i as int]@);
                params.push(FnArgument::new(n));
            },
            Err(e) => {
                assert(names[i as int] == fn_args@[i as int]@);
                assert(!all_variables(names));
                return Err(e);
            },
        }
        i = i + 1;
    }
    let ghost ps = params_of(names);
    assert(all_variables(names));
    assert forall|j: int| 0 <= j < ps.len() implies param_matches(#[trigger] params@[j], ps[j]) by {
    }
    let n = params.len();
    let mut k: usize = 0;
    while n > 0 && k < n - 1
        invariant
            all_variables(names),
            names == fn_args@.map_values(|a: Argument| a@),
            ps == params_of(names),
            n == params@.len() == ps.len(),
            0 <= k <= n,
            forall|j: int| 0 <= j < ps.len() ==> param_matches(#[trigger] params@[j], ps[j]),
            forall|j: int| 0 <= j < k ==> !(#[trigger] ps[j]).1,
        decreases n - k,
    {
        if params[k].variadic {
            assert(!variadic_last(ps)) by {
                assert(ps[k as int].1);
            }
            return Err(
                Exception::with_trace(
                    ArgumentError,
                    "variadic argument must be the last of the fn arguments",
                    backtrace,
                ),
            );
        }
        k = k + 1;
    }
    assert(variadic_last(ps));
    let argc: Option<usize> = if n > 0 && params[n - 1].variadic {
        None
    } else {
        Some(n)
    };
    let b = body.clone();
    assert(b@ == body@);
    let f = Function::new(
        string_from_chars(&chars_of(doc)),
        argc,
        FunctionBody::Defined { params, body: b },
    );
    assert(f.0.argc == defined_argc(ps));
    assert(f.0.body matches FunctionBody::Defined { params: p, body: bb } && bb@ == body@);
    Ok(Atom::Function(f))
}

/// The message of a call with the wrong number of arguments.
pub open spec fn argc_mismatch_msg(argc: usize, found: usize, name: Option<Seq<char>>) -> Seq<
    char,
> {
    "expected `"@ + nat_digits(argc as nat) + "` args, found `"@ + nat_digits(found as nat)
        + match name {
        Some(n) => "` args for `"@ + n + "`"@,
        None => "` args"@,
    }
}

/// Checks the number of arguments of a call against a function's argument
/// count: a function with a count takes exactly that many. A mismatch raises an
/// `Argument` error that names the called function where its name is known.
pub fn check_argc(argc: Option<usize>, found: usize, name: Option<&str>, backtrace: &[Span]) -> (r:
    Result<(), Exception>)
    ensures
        match argc {
            Some(n) if n != found => r matches Err(e) && {
                &&& e.error@ == ArgumentError@
                &&& e.msg@ == argc_mismatch_msg(
                    n,
                    found,
                    match name {
                        Some(s) => Some(s@),
                        None => None,
                    },
                )
                &&& e.backtrace.is_some()
                &&& e.backtrace.unwrap()@ == backtrace@
            },
            _ => r is Ok,
        },
{
    match argc {
        Some(n) => {
            if n != found {
                let mut v: Vec<char> = Vec::new();
                push_str(&mut v, "expected `");
                push_u64(&mut v, n as u64);
                push_str(&mut v, "` args, found `");
                push_u64(&mut v, found as u64);
                match name {
                    Some(s) => {
                        push_str(&mut v, "` args for `");
                        push_str(&mut v, s);
                        push_str(&mut v, "`");
                    },
                    None => {
                        push_str(&mut v, "` args");
                    },
                }
                let msg = string_from_chars(&v);
                return Err(Exception::with_trace(ArgumentError, msg.as_str(), backtrace));
            }
            Ok(())
        },
        None => Ok(()),
    }
}

/// Checks a call of a variadic defined function: it needs at least one
/// argument for each parameter before the variadic one. Too few raise an
/// `Argument` error.
pub fn check_variadic_args(n_params: usize, found: usize, backtrace: &[Span]) -> (r: Result<
    (),
    Exception,
>)
    requires
        n_params >= 1,
    ensures
        found >= n_params - 1 ==> r is Ok,
        found < n_params - 1 ==> (r matches Err(e) && {
            &&& e.error@ == ArgumentError@
            &&& e.msg@ == "too few arguments to variadic function: expected at least "@
                + nat_digits((n_params - 1) as nat) + ", found "@ + nat_digits(found as nat)
            &&& e.backtrace.is_some()
            &&& e.backtrace.unwrap()@ == backtrace@
        }),
{
    let min = n_params - 1;
    if found < min {
        let mut v: Vec<char> = Vec::new();
        push_str(&mut v, "too few arguments to variadic function: expected at least ");
        push_u64(&mut v, min as u64);
        push_str(&mut v, ", found ");
        push_u64(&mut v, found as u64);
        let msg = string_from_chars(&v);
        return Err(Exception::with_trace(ArgumentError, msg.as_str(), backtrace));
    }
    Ok(())
}

} // verus!
