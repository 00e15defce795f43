//! The partial order of values.

use crate::atom::{display_text, Atom, AtomV};
use crate::exception::{ArgumentError, Exception};
use crate::span::Span;
use crate::text::{push_chars, push_str, string_from_chars, chars_of};
use std::cmp::Ordering;
use vstd::prelude::*;
use vstd::std_specs::cmp::PartialOrdSpecImpl;

verus! {

/// Whether the models of two values satisfy the comparison mode `mode` (0
/// `<`, 1 `<=`, 2 `>=`, 3 `>`), where they are ordered (see
/// [`atom_partial_cmp`]); `None` where they are not.
pub open spec fn view_compare(mode: i64, a: AtomV, b: AtomV) -> Option<bool> {
    match (a, b) {
        (AtomV::Int(x), AtomV::Int(y)) => Some(
            mode_holds_i64(
                mode,
                if x < y {
                    Ordering::Less
                } else if x == y {
                    Ordering::Equal
                } else {
                    Ordering::Greater
                },
            ),
        ),
        (AtomV::Bool(x), AtomV::Bool(y)) => Some(
            mode_holds_i64(
                mode,
                if !x && y {
                    Ordering::Less
                } else if x == y {
                    Ordering::Equal
                } else {
                    Ordering::Greater
                },
            ),
        ),
        (AtomV::Null, AtomV::Null) => Some(mode_holds_i64(mode, Ordering::Equal)),
        _ => None,
    }
}

/// Comparing values is comparing their models, for a mode given as a byte
/// `m` or as the integer `mm` it equals.
pub proof fn lemma_view_compare(m: u8, mm: i64, a: Atom, b: Atom)
    requires
        m == mm,
    ensures
        match atom_partial_cmp(a, b) {
            Some(o) => view_compare(mm, a@, b@) == Some(mode_holds(m, o)),
            None => view_compare(mm, a@, b@).is_none(),
        },
{
}

/// How two values compare: integers by value, booleans with `false < true`,
/// `null` equal to itself; any other pair is unordered.
pub open spec fn atom_partial_cmp(a: Atom, b: Atom) -> Option<Ordering> {
    match (a, b) {
        (Atom::Int(x), Atom::Int(y)) => Some(
            if x < y {
                Ordering::Less
            } else if x == y {
                Ordering::Equal
            } else {
                Ordering::Greater
            },
        ),
        (Atom::Bool(x), Atom::Bool(y)) => Some(
            if !x && y {
                Ordering::Less
            } else if x == y {
                Ordering::Equal
            } else {
                Ordering::Greater
            },
        ),
        (Atom::Null, Atom::Null) => Some(Ordering::Equal),
        _ => None,
    }
}

impl PartialOrd for Atom {
    fn partial_cmp(&self, other: &Self) -> (r: Option<Ordering>) {
        match (self, other) {
            (Atom::Int(x), Atom::Int(y)) => Some(
                if *x < *y {
                    Ordering::Less
                } else if *x == *y {
                    Ordering::Equal
                } else {
                    Ordering::Greater
                },
            ),
            (Atom::Bool(x), Atom::Bool(y)) => Some(
                if !*x && *y {
                    Ordering::Less
                } else if *x == *y {
                    Ordering::Equal
                } else {
                    Ordering::Greater
                },
            ),
            (Atom::Null, Atom::Null) => Some(Ordering::Equal),
            _ => None,
        }
    }
}

impl PartialOrdSpecImpl for Atom {
    open spec fn obeys_partial_cmp_spec() -> bool {
        true
    }

    open spec fn partial_cmp_spec(&self, other: &Self) -> Option<Ordering> {
        atom_partial_cmp(*self, *other)
    }
}

/// Comparing two values the other way round gives the opposite result.
pub proof fn lemma_atom_partial_cmp_antisymmetric(a: Atom, b: Atom)
    ensures
        atom_partial_cmp(a, b) == Some(Ordering::Less) <==> atom_partial_cmp(b, a) == Some(
            Ordering::Greater,
        ),
        atom_partial_cmp(a, b).is_none() <==> atom_partial_cmp(b, a).is_none(),
{
}

/// Whether an ordering satisfies a comparison mode: 0 is `<`, 1 is `<=`,
/// 2 is `>=` and 3 is `>`.
pub open spec fn mode_holds(mode: u8, o: Ordering) -> bool {
    if mode == 0 {
        o == Ordering::Less
    } else if mode == 1 {
        o == Ordering::Less || o == Ordering::Equal
    } else if mode == 2 {
        o == Ordering::Greater || o == Ordering::Equal
    } else {
        o == Ordering::Greater
    }
}

/// Whether an ordering satisfies a comparison mode given as an integer
/// (see [`mode_holds`]).
pub open spec fn mode_holds_i64(mode: i64, o: Ordering) -> bool {
    if mode == 0 {
        o == Ordering::Less
    } else if mode == 1 {
        o == Ordering::Less || o == Ordering::Equal
    } else if mode == 2 {
        o == Ordering::Greater || o == Ordering::Equal
    } else {
        o == Ordering::Greater
    }
}

/// Compares two values by a comparison mode (0 `<`, 1 `<=`, 2 `>=`, 3 `>`).
/// Values that are unordered raise an `Argument` error naming both.
pub fn builtin_atom_cmp(mode: u8, lhs: &Atom, rhs: &Atom, backtrace: &[Span]) -> (r: Result<
    Atom,
    Exception,
>)
    requires
        mode <= 3,
    ensures
        match atom_partial_cmp(*lhs, *rhs) {
            Some(o) => r == Ok::<Atom, Exception>(Atom::Bool(mode_holds(mode, o))),
            None => r matches Err(e) && {
                &&& e.error@ == ArgumentError@
                &&& e.msg@ == "cannot compare "@ + display_text(lhs@) + " and "@ + display_text(
                    rhs@,
                )
                &&& e.backtrace.is_some()
                &&& e.backtrace.unwrap()@ == backtrace@
            },
        },
{
    match lhs.partial_cmp(rhs) {
        Some(o) => {
            let b = match o {
                Ordering::Less => mode == 0 || mode == 1,
                Ordering::Equal => mode == 1 || mode == 2,
                Ordering::Greater => mode == 2 || mode == 3,
            };
            Ok(Atom::Bool(b))
        },
        None => {
            let mut v: Vec<char> = Vec::new();
            push_str(&mut v, "cannot compare ");
            let l = chars_of(lhs.to_string().as_str());
            push_chars(&mut v, &l);
            push_str(&mut v, " and ");
            let rr = chars_of(rhs.to_string().as_str());
            push_chars(&mut v, &rr);
            let msg = string_from_chars(&v);
            Err(Exception::with_trace(ArgumentError, msg.as_str(), backtrace))
        },
    }
}

} // verus!
