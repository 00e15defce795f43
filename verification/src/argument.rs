//! The syntax tree of a program.

use crate::atom::{Atom, AtomV};
use crate::exception::Exception;
use crate::span::Span;
use vstd::prelude::*;

verus! {

/// A node of the syntax tree: a function call, a literal value or a variable.
#[derive(Debug)]
pub enum Argument {
    /// A call of the named function with arguments.
    FunctionCall(FunctionCall, Span),
    /// A literal value.
    Atom(Atom, Span),
    /// A variable, by name.
    Variable(String, Span),
}

/// A function call: the function's name, its arguments and the doc comment above it.
#[derive(Debug)]
pub struct FunctionCall {
    /// The arguments.
    pub args: Vec<Argument>,
    /// The name of the called function.
    pub name: String,
    /// The doc comment written above the call.
    pub doc_comment: String,
}

/// The mathematical model of a syntax tree node.
pub enum ArgV {
    /// A call: function name, arguments, doc comment, span.
    Call(Seq<char>, Seq<ArgV>, Seq<char>, Span),
    /// A literal value and its span.
    Atom(AtomV, Span),
    /// A variable name and its span.
    Variable(Seq<char>, Span),
}

/// The model of a syntax tree node.
pub open spec fn arg_view(a: Argument) -> ArgV
    decreases a, 0nat,
{
    match a {
        Argument::FunctionCall(c, s) => ArgV::Call(
            c.name@,
            args_view(c.args@, c.args@.len()),
            c.doc_comment@,
            s,
        ),
        Argument::Atom(x, s) => ArgV::Atom(crate::atom::atom_view(x), s),
        Argument::Variable(n, s) => ArgV::Variable(n@, s),
    }
}

/// The models of the first `n` nodes of `s`.
pub open spec fn args_view(s: Seq<Argument>, n: nat) -> Seq<ArgV>
    decreases s, n,
{
    if n == 0 || n > s.len() {
        Seq::empty()
    } else {
        args_view(s, (n - 1) as nat).push(arg_view(s[n - 1]))
    }
}

impl View for Argument {
    type V = ArgV;

    open spec fn view(&self) -> ArgV {
        arg_view(*self)
    }
}

/// `args_view` of a whole sequence has one model per node, in order.
pub proof fn lemma_args_view(s: Seq<Argument>, n: nat)
    requires
        n <= s.len(),
    ensures
        args_view(s, n).len() == n,
        forall|k: int| 0 <= k < n ==> #[trigger] args_view(s, n)[k] == arg_view(s[k]),
    decreases n,
{
    if n > 0 {
        lemma_args_view(s, (n - 1) as nat);
    }
}

/// The number of nodes of a syntax tree.
pub open spec fn arg_size(a: ArgV) -> nat
    decreases a, 0nat,
{
    match a {
        ArgV::Call(_, args, _, _) => 1 + args_size(args, args.len()),
        _ => 1,
    }
}

/// The number of nodes of the first `n` trees of `s`.
pub open spec fn args_size(s: Seq<ArgV>, n: nat) -> nat
    decreases s, n,
{
    if n == 0 || n > s.len() {
        0
    } else {
        args_size(s, (n - 1) as nat) + arg_size(s[n - 1])
    }
}

/// Each tree of a sequence is smaller than the whole sequence.
pub proof fn lemma_args_size(s: Seq<ArgV>, n: nat, k: int)
    requires
        n <= s.len(),
        0 <= k < n,
    ensures
        arg_size(s[k]) <= args_size(s, n),
    decreases n,
{
    if k < n - 1 {
        lemma_args_size(s, (n - 1) as nat, k);
    }
}

/// The first `j` trees of a sequence are no larger than the first `n`, for
/// `j <= n`.
pub proof fn lemma_args_size_monotone(s: Seq<ArgV>, j: nat, n: nat)
    requires
        j <= n <= s.len(),
    ensures
        args_size(s, j) <= args_size(s, n),
    decreases n - j,
{
    if j < n {
        lemma_args_size_monotone(s, j, (n - 1) as nat);
    }
}

/// Copies a syntax tree.
pub fn clone_argument(a: &Argument) -> (r: Argument)
    ensures
        r@ == a@,
    decreases arg_size(a@),
{
    match a {
        Argument::FunctionCall(c, s) => {
            let mut args: Vec<Argument> = Vec::new();
            let mut i: usize = 0;
            while i < c.args.len()
                invariant
                    *a == Argument::FunctionCall(*c, *s),
                    0 <= i <= c.args@.len(),
                    args@.len() == i,
                    forall|k: int| 0 <= k < i ==> (#[trigger] args@[k])@ == c.args@[k]@,
                decreases c.args@.len() - i,
            {
                proof {
                    lemma_args_view(c.args@, c.args@.len());
                    lemma_args_size(args_view(c.args@, c.args@.len()), c.args@.len(), i as int);
                }
                let x = clone_argument(&c.args[i]);
                args.push(x);
                i = i + 1;
            }
            proof {
                lemma_args_view(args@, args@.len());
                lemma_args_view(c.args@, c.args@.len());
                assert(args_view(args@, args@.len()) =~= args_view(c.args@, c.args@.len()));
            }
            Argument::FunctionCall(
                FunctionCall { args, name: c.name.clone(), doc_comment: c.doc_comment.clone() },
                s.clone(),
            )
        },
        Argument::Atom(x, s) => Argument::Atom(x.clone(), s.clone()),
        Argument::Variable(n, s) => Argument::Variable(n.clone(), s.clone()),
    }
}

impl Clone for Argument {
    fn clone(&self) -> (r: Self)
        ensures
            r@ == self@,
    {
        clone_argument(self)
    }
}

} // verus!

verus! {

/// How a syntax tree is written in source code: calls as `name(arg, arg)`,
/// values as `stringify_text`, variables by name.
pub open spec fn stringify_arg(a: ArgV) -> Seq<char>
    decreases a, 0nat,
{
    match a {
        ArgV::Call(n, args, _, _) => n + seq!['('] + stringify_args(args, args.len()) + seq![')'],
        ArgV::Atom(v, _) => crate::atom::stringify_text(v),
        ArgV::Variable(n, _) => n,
    }
}

/// The first `n` trees of `s` written in source code, separated by `, `.
pub open spec fn stringify_args(s: Seq<ArgV>, n: nat) -> Seq<char>
    decreases s, n,
{
    if n == 0 || n > s.len() {
        Seq::empty()
    } else if n == 1 {
        stringify_arg(s[0])
    } else {
        stringify_args(s, (n - 1) as nat) + ", "@ + stringify_arg(s[n - 1])
    }
}

/// The span of a syntax tree node.
pub open spec fn arg_span(a: ArgV) -> Span {
    match a {
        ArgV::Call(_, _, _, s) => s,
        ArgV::Atom(_, s) => s,
        ArgV::Variable(_, s) => s,
    }
}

/// Appends how `a` is written in source code to `out`.
pub fn push_stringified(out: &mut Vec<char>, a: &Argument)
    ensures
        final(out)@ == old(out)@ + stringify_arg(a@),
    decreases arg_size(a@),
{
    proof {
        reveal_strlit(", ");
    }
    let ghost start = out@;
    match a {
        Argument::Atom(x, _) => {
            let s = x.stringify();
            crate::text::push_str(out, s.as_str());
        },
        Argument::Variable(n, _) => {
            crate::text::push_str(out, n.as_str());
        },
        Argument::FunctionCall(c, _) => {
            crate::text::push_str(out, c.name.as_str());
            out.push('(');
            let ghost s = args_view(c.args@, c.args@.len());
            proof {
                lemma_args_view(c.args@, c.args@.len());
            }
            let mut i: usize = 0;
            while i < c.args.len()
                invariant
                    *a == Argument::FunctionCall(*c, *(arg_span_ref(a))),
                    s == args_view(c.args@, c.args@.len()),
                    s.len() == c.args@.len(),
                    forall|k: int| 0 <= k < s.len() ==> #[trigger] s[k] == arg_view(c.args@[k]),
                    0 <= i <= c.args@.len(),
                    out@ == start + c.name@ + seq!['('] + stringify_args(s, i as nat),
                decreases c.args@.len() - i,
            {
                if i > 0 {
                    crate::text::push_str(out, ", ");
                }
                proof {
                    lemma_args_size(s, s.len(), i as int);
                }
                push_stringified(out, &c.args[i]);
                i = i + 1;
                assert(out@ =~= start + c.name@ + seq!['('] + stringify_args(s, i as nat));
            }
            out.push(')');
            assert(out@ =~= start + stringify_arg(a@));
        },
    }
}

/// The span stored in a syntax tree node.
pub open spec fn arg_span_ref(a: &Argument) -> &Span {
    match a {
        Argument::FunctionCall(_, s) => s,
        Argument::Atom(_, s) => s,
        Argument::Variable(_, s) => s,
    }
}

impl Argument {
    /// An approximation of the source code of this node (see [`stringify_arg`]).
    pub fn stringify(&self) -> (s: String)
        ensures
            s@ == stringify_arg(self@),
    {
        let mut v: Vec<char> = Vec::new();
        push_stringified(&mut v, self);
        assert(v@ =~= stringify_arg(self@));
        crate::text::string_from_chars(&v)
    }

    /// The span of this node.
    pub fn span(&self) -> (s: &Span)
        ensures
            *s == arg_span(self@),
    {
        match self {
            Argument::Atom(_, s) | Argument::FunctionCall(_, s) | Argument::Variable(_, s) => s,
        }
    }

    /// The name of this variable; an argument error with the given message,
    /// at the given backtrace, if this node is not a variable.
    pub fn variable(&self, error_msg: &str, backtrace: &[Span]) -> (r: Result<&str, Exception>)
        ensures
            match r {
                Ok(n) => self@ is Variable && n@ == self@->Variable_0,
                Err(e) => {
                    &&& !(self@ is Variable)
                    &&& e.error@ == crate::exception::ArgumentError@
                    &&& e.msg@ == error_msg@
                    &&& e.backtrace == Some(e.backtrace.unwrap())
                    &&& e.backtrace.unwrap()@ == backtrace@
                },
            },
    {
        match self {
            Argument::Variable(var, _) => Ok(var.as_str()),
            _ => Err(Exception::with_trace(crate::exception::ArgumentError, error_msg, backtrace)),
        }
    }
}

impl FunctionCall {
    /// An approximation of the source code of this call: `name(arg, arg)`.
    pub fn stringify(&self) -> (s: String)
        ensures
            s@ == self.name@ + seq!['('] + stringify_args(
                args_view(self.args@, self.args@.len()),
                self.args@.len(),
            ) + seq![')'],
    {
        let mut v: Vec<char> = Vec::new();
        crate::text::push_str(&mut v, self.name.as_str());
        v.push('(');
        let ghost s = args_view(self.args@, self.args@.len());
        proof {
            lemma_args_view(self.args@, self.args@.len());
            reveal_strlit(", ");
        }
        let mut i: usize = 0;
        while i < self.args.len()
            invariant
                s == args_view(self.args@, self.args@.len()),
                s.len() == self.args@.len(),
                forall|k: int| 0 <= k < s.len() ==> #[trigger] s[k] == arg_view(self.args@[k]),
                0 <= i <= self.args@.len(),
                v@ == self.name@ + seq!['('] + stringify_args(s, i as nat),
            decreases self.args@.len() - i,
        {
            if i > 0 {
                crate::text::push_str(&mut v, ", ");
            }
            push_stringified(&mut v, &self.args[i]);
            i = i + 1;
            assert(v@ =~= self.name@ + seq!['('] + stringify_args(s, i as nat));
        }
        v.push(')');
        crate::text::string_from_chars(&v)
    }
}

} // verus!
