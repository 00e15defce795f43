//! Exceptions raised while tokenizing, parsing or running a program.

use crate::span::{Span, span_text, span_chars};
use crate::text::{push_chars, push_str, string_from_chars, chars_of};
use vstd::prelude::*;

verus! {

/// The error kind of type errors.
#[allow(non_upper_case_globals)]
pub const TypeError: &'static str = "Type";

/// The error kind of integer overflow errors.
#[allow(non_upper_case_globals)]
pub const OverflowError: &'static str = "Overflow";

/// The error kind of unknown-name errors.
#[allow(non_upper_case_globals)]
pub const NameError: &'static str = "Name";

/// The error kind of syntax errors.
#[allow(non_upper_case_globals)]
pub const SyntaxError: &'static str = "Syntax";

/// The error kind of invalid-argument errors.
#[allow(non_upper_case_globals)]
pub const ArgumentError: &'static str = "Argument";

/// The error kind of out-of-bounds index errors.
#[allow(non_upper_case_globals)]
pub const IndexError: &'static str = "Index";

/// The error kind of input/output errors.
#[allow(non_upper_case_globals)]
pub const IoError: &'static str = "Io";

/// The error kind of import errors.
#[allow(non_upper_case_globals)]
pub const ImportError: &'static str = "Import";

/// The error kind of division by zero.
#[allow(non_upper_case_globals)]
pub const DivideByZeroError: &'static str = "DivideByZero";

/// An exception: an error kind, a message and (optionally) the spans of the
/// calls that were being evaluated when it was raised.
#[derive(Debug, Clone)]
pub struct Exception {
    /// The message.
    pub msg: String,
    /// The error kind, such as `Type`; displayed with `Error` appended.
    pub error: String,
    /// The backtrace, outermost call first.
    pub backtrace: Option<Vec<Span>>,
}

/// Copies a sequence of spans.
pub fn clone_spans(v: &[Span]) -> (r: Vec<Span>)
    ensures
        r@ == v@,
{
    let mut r: Vec<Span> = Vec::new();
    let mut i: usize = 0;
    while i < v.len()
        invariant
            0 <= i <= v@.len(),
            r@ == v@.take(i as int),
        decreases v@.len() - i,
    {
        r.push(v[i].clone());
        i = i + 1;
        assert(r@ =~= v@.take(i as int));
    }
    assert(v@.take(v@.len() as int) =~= v@);
    r
}

/// The lines `\nat <span>` for the entries of a backtrace after the first one,
/// innermost call first.
pub open spec fn trace_lines(b: Seq<Span>) -> Seq<char>
    decreases b.len(),
{
    if b.len() <= 1 {
        Seq::empty()
    } else {
        "\nat "@ + span_text(b.last()) + trace_lines(b.drop_last())
    }
}

/// How an exception is displayed: `<kind>Error: <msg>`, followed by its location.
/// A backtrace of one span (a syntax error) shows that span; a longer backtrace
/// shows every entry except the first (the implicit wrapper of the program),
/// innermost first.
pub open spec fn exception_text(e: Exception) -> Seq<char> {
    e.error@ + "Error: "@ + e.msg@ + match e.backtrace {
        None => Seq::empty(),
        Some(b) => if b@.len() == 1 {
            "\nat "@ + span_text(b@[0])
        } else {
            trace_lines(b@)
        },
    }
}

impl Exception {
    /// Constructs an exception with the given error kind and message,
    /// but without any span or backtrace.
    pub fn unspanned(error: &str, msg: &str) -> (e: Exception)
        ensures
            e.error@ == error@,
            e.msg@ == msg@,
            e.backtrace.is_none(),
    {
        Exception { msg: msg.to_owned(), error: error.to_owned(), backtrace: None }
    }

    /// Constructs an exception with the given error kind and message,
    /// using the given span as the only backtrace entry.
    pub fn spanned(error: &str, msg: &str, span: &Span) -> (e: Exception)
        ensures
            e.error@ == error@,
            e.msg@ == msg@,
            e.backtrace.is_some(),
            e.backtrace.unwrap()@ == seq![*span],
    {
        let mut b: Vec<Span> = Vec::new();
        b.push(span.clone());
        assert(b@ =~= seq![*span]);
        Exception { msg: msg.to_owned(), error: error.to_owned(), backtrace: Some(b) }
    }

    /// Constructs an exception with the given error kind, message and backtrace.
    pub fn with_trace(error: &str, msg: &str, backtrace: &[Span]) -> (e: Exception)
        ensures
            e.error@ == error@,
            e.msg@ == msg@,
            e.backtrace.is_some(),
            e.backtrace.unwrap()@ == backtrace@,
    {
        Exception { msg: msg.to_owned(), error: error.to_owned(), backtrace: Some(clone_spans(backtrace)) }
    }

    /// The display text of this exception (see [`exception_text`]).
    pub fn to_string(&self) -> (s: String)
        ensures
            s@ == exception_text(*self),
    {
        proof {
            reveal_strlit("Error: ");
            reveal_strlit("\nat ");
        }
        let mut v = chars_of(self.error.as_str());
        push_str(&mut v, "Error: ");
        let m = chars_of(self.msg.as_str());
        push_chars(&mut v, &m);
        let ghost head = v@;
        match &self.backtrace {
            None => {},
            Some(b) => {
                if b.len() == 1 {
                    push_str(&mut v, "\nat ");
                    let sc = span_chars(&b[0]);
                    push_chars(&mut v, &sc);
                } else {
                    let mut i: usize = b.len();
                    assert(b@.take(b@.len() as int) =~= b@);
                    while i > 1
                        invariant
                            0 <= i <= b@.len(),
                            b@.len() != 1,
                            i == b@.len() || i >= 1,
                            v@ + trace_lines(b@.take(i as int)) == head + trace_lines(b@),
                        decreases i,
                    {
                        let ghost pre = b@.take(i as int);
                        assert(pre.drop_last() =~= b@.take(i - 1));
                        assert(pre.last() == b@[i - 1]);
                        push_str(&mut v, "\nat ");
                        let sc = span_chars(&b[i - 1]);
                        push_chars(&mut v, &sc);
                        i = i - 1;
                        assert(v@ + trace_lines(b@.take(i as int)) =~= head + trace_lines(b@));
                    }
                    assert(trace_lines(b@.take(i as int)) =~= Seq::<char>::empty());
                    assert(b@.take(b@.len() as int) =~= b@);
                    assert(v@ =~= head + trace_lines(b@));
                }
            },
        }
        assert(v@ =~= exception_text(*self));
        string_from_chars(&v)
    }
}

} // verus!
