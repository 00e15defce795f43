//! Optimizations of a syntax tree before it runs.

use crate::argument::{
    ArgV,
    Argument,
    FunctionCall,
    arg_size,
    args_size,
    args_view,
    lemma_args_size,
    lemma_args_view,
};
use crate::atom::{Atom, AtomV};
use crate::text::chars_eq_str;
use vstd::prelude::*;

verus! {

/// Replaces a trivial call of `_` (which evaluates its arguments in turn and
/// returns the last): with no arguments it is `null`, with one it is that
/// argument. Any other node stays as it is.
pub open spec fn inline_underscore(a: ArgV) -> ArgV {
    match a {
        ArgV::Call(name, args, _, span) => if name == "_"@ && args.len() == 0 {
            ArgV::Atom(AtomV::Null, span)
        } else if name == "_"@ && args.len() == 1 {
            args[0]
        } else {
            a
        },
        _ => a,
    }
}

/// Inlining a trivial call never makes a tree bigger.
pub proof fn lemma_inline_size(a: ArgV)
    ensures
        arg_size(inline_underscore(a)) <= arg_size(a),
{
    if let ArgV::Call(name, args, _, _) = a {
        if args.len() == 1 {
            lemma_args_size(args, args.len(), 0);
        }
    }
}

/// The optimized tree: trivial calls of `_` are inlined at the root, then the
/// arguments of the resulting call, if it is one, are optimized in turn.
pub open spec fn optimized(a: ArgV) -> ArgV
    decreases arg_size(a), 0nat,
{
    let b = inline_underscore(a);
    proof {
        lemma_inline_size(a);
    }
    match b {
        ArgV::Call(n, args, d, s) => ArgV::Call(n, optimized_args(args, args.len()), d, s),
        _ => b,
    }
}

/// The optimized versions of the first `n` trees of `s`.
pub open spec fn optimized_args(s: Seq<ArgV>, n: nat) -> Seq<ArgV>
    decreases args_size(s, n), 1nat,
{
    if n == 0 || n > s.len() {
        Seq::empty()
    } else {
        proof {
            lemma_args_size(s, n, n - 1);
        }
        optimized_args(s, (n - 1) as nat).push(optimized(s[n - 1]))
    }
}

/// `optimized_args` of a whole sequence optimizes each tree in place.
pub proof fn lemma_optimized_args(s: Seq<ArgV>, n: nat)
    requires
        n <= s.len(),
    ensures
        optimized_args(s, n).len() == n,
        forall|k: int| 0 <= k < n ==> #[trigger] optimized_args(s, n)[k] == optimized(s[k]),
    decreases n,
{
    if n > 0 {
        lemma_optimized_args(s, (n - 1) as nat);
    }
}

/// Inlines a trivial call of `_` at the root of the tree.
fn inline_trivial_underscore_call(a: Argument) -> (r: Argument)
    ensures
        r@ == inline_underscore(a@),
{
    match a {
        Argument::FunctionCall(mut call, span) => {
            proof {
                lemma_args_view(call.args@, call.args@.len());
            }
            if chars_eq_str(&crate::text::chars_of(call.name.as_str()), "_") {
                if call.args.len() == 0 {
                    return Argument::Atom(Atom::Null, span);
                } else if call.args.len() == 1 {
                    let x = call.args.pop();
                    match x {
                        Some(x) => {
                            return x;
                        },
                        None => {
                            return Argument::FunctionCall(call, span);
                        },
                    }
                }
            }
            Argument::FunctionCall(call, span)
        },
        _ => a,
    }
}

/// Optimizes a tree (see [`optimized`]).
fn optimize(a: Argument) -> (r: Argument)
    ensures
        r@ == optimized(a@),
    decreases arg_size(a@),
{
    proof {
        lemma_inline_size(a@);
    }
    let b = inline_trivial_underscore_call(a);
    match b {
        Argument::FunctionCall(call, span) => {
            let ghost bv = b@;
            proof {
                lemma_args_view(call.args@, call.args@.len());
            }
            let ghost old_args = args_view(call.args@, call.args@.len());
            let mut out: Vec<Argument> = Vec::new();
            let mut i: usize = 0;
            while i < call.args.len()
                invariant
                    0 <= i <= call.args@.len(),
                    old_args == args_view(call.args@, call.args@.len()),
                    old_args.len() == call.args@.len(),
                    forall|k: int| 0 <= k < old_args.len() ==> #[trigger] old_args[k] == call.args@[k]@,
                    arg_size(bv) <= arg_size(a@),
                    bv == ArgV::Call(call.name@, old_args, call.doc_comment@, span),
                    out@.len() == i,
                    forall|k: int| 0 <= k < i ==> (#[trigger] out@[k])@ == optimized(old_args[k]),
                decreases call.args@.len() - i,
            {
                proof {
                    lemma_args_size(old_args, old_args.len(), i as int);
                }
                let x = call.args[i].clone();
                out.push(optimize(x));
                i = i + 1;
            }
            proof {
                lemma_args_view(out@, out@.len());
                lemma_optimized_args(old_args, old_args.len());
                assert(args_view(out@, out@.len()) =~= optimized_args(old_args, old_args.len()));
            }
            Argument::FunctionCall(
                FunctionCall { args: out, name: call.name, doc_comment: call.doc_comment },
                span,
            )
        },
        _ => b,
    }
}

/// Optimizes a program in place (see [`optimized`]).
pub fn run_optimizations(program: &mut Argument)
    ensures
        final(program)@ == optimized(old(program)@),
{
    let mut a = Argument::Atom(Atom::Null, program.span().clone());
    std::mem::swap(&mut a, program);
    *program = optimize(a);
}

} // verus!
