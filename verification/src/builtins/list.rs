//! The basic list operations of the language: length, indexing, removal and
//! insertion.

use crate::atom::{display_text, Atom, List};
use crate::exception::{ArgumentError, Exception, IndexError, OverflowError, TypeError};
use crate::span::Span;
use crate::text::{chars_of, int_digits, nat_digits, push_chars, push_i64, push_str, push_u64, string_from_chars};
use vstd::prelude::*;

verus! {

/// The mode that asks for the length of a list.
pub const LEN: i64 = 1;

/// The mode that reads the element at an index.
pub const INDEX: i64 = 2;

/// The mode that removes the element at an index.
pub const REMOVE: i64 = 3;

/// The mode that inserts an element at an index.
pub const INSERT: i64 = 4;

/// The number of arguments (after the mode) that a list mode takes.
pub open spec fn list_mode_argc(mode: i64) -> nat {
    if mode == LEN {
        1
    } else if mode == INSERT {
        3
    } else {
        2
    }
}

/// The number of arguments (after the mode) that the list mode `mode` takes:
/// the list, then the index, then the element to insert.
pub fn expected_list_argc(mode: i64) -> (n: usize)
    requires
        LEN <= mode <= INSERT,
    ensures
        n == list_mode_argc(mode),
{
    if mode == LEN {
        1
    } else if mode == INSERT {
        3
    } else {
        2
    }
}

/// Converts a count to an integer value; a count above `i64::MAX` raises an
/// `Overflow` error.
pub fn int_from_usize(n: usize, backtrace: &[Span]) -> (r: Result<Atom, Exception>)
    ensures
        n <= i64::MAX ==> r == Ok::<Atom, Exception>(Atom::Int(n as i64)),
        n > i64::MAX ==> (r matches Err(e) && {
            &&& e.error@ == OverflowError@
            &&& e.msg@ == "invalid integer: out of range integral type conversion attempted"@
            &&& e.backtrace.is_some()
            &&& e.backtrace.unwrap()@ == backtrace@
        }),
{
    if n as u64 <= 0x7fff_ffff_ffff_ffff {
        Ok(Atom::Int(n as i64))
    } else {
        Err(
            Exception::with_trace(
                OverflowError,
                "invalid integer: out of range integral type conversion attempted",
                backtrace,
            ),
        )
    }
}

/// The length of a list as an integer value.
pub fn list_len(list: &List, backtrace: &[Span]) -> (r: Result<Atom, Exception>)
    ensures
        list.0@.len() <= i64::MAX ==> r == Ok::<Atom, Exception>(
            Atom::Int(list.0@.len() as i64),
        ),
        list.0@.len() > i64::MAX ==> (r matches Err(e) && e.error@ == OverflowError@),
{
    int_from_usize(list.len(), backtrace)
}

/// The exclusive upper bound of the indices that a list mode accepts on a
/// list of length `len`: one more than the last index for insertion.
pub open spec fn index_bound(mode: i64, len: nat) -> nat {
    if mode == INSERT {
        len + 1
    } else {
        len
    }
}

/// Checks the index given to a list mode (2 to 4) on a list of length
/// `len`. A negative index, or one at or past [`index_bound`], raises an
/// `Index` error.
pub fn list_index_checked(mode: i64, len: usize, index: i64, backtrace: &[Span]) -> (r: Result<
    usize,
    Exception,
>)
    requires
        INDEX <= mode <= INSERT,
        len < usize::MAX,
    ensures
        0 <= index < index_bound(mode, len as nat) ==> r == Ok::<usize, Exception>(index as usize),
        !(0 <= index < index_bound(mode, len as nat)) ==> (r matches Err(e) && {
            &&& e.error@ == IndexError@
            &&& e.backtrace.is_some()
            &&& e.backtrace.unwrap()@ == backtrace@
            &&& index < 0 ==> e.msg@
                == "invalid list index: out of range integral type conversion attempted"@
            &&& index >= 0 ==> e.msg@ == "index "@ + int_digits(index as int)
                + " out of bounds for list of len "@ + nat_digits(len as nat)
        }),
{
    if index < 0 {
        return Err(
            Exception::with_trace(
                IndexError,
                "invalid list index: out of range integral type conversion attempted",
                backtrace,
            ),
        );
    }
    let bound: u64 = if mode == INSERT {
        len as u64 + 1
    } else {
        len as u64
    };
    if index as u64 >= bound {
        let mut v: Vec<char> = Vec::new();
        push_str(&mut v, "index ");
        push_i64(&mut v, index);
        push_str(&mut v, " out of bounds for list of len ");
        push_u64(&mut v, len as u64);
        let msg = string_from_chars(&v);
        return Err(Exception::with_trace(IndexError, msg.as_str(), backtrace));
    }
    Ok(index as usize)
}

/// Performs a list mode at an index already checked by
/// [`list_index_checked`]: 2 reads the element, 3 returns the list without
/// it, 4 returns the list with `element` inserted before it. The given list
/// itself is left as it is.
pub fn builtin_list_api(mode: i64, list: &List, index: usize, element: Option<Atom>) -> (r: Atom)
    requires
        INDEX <= mode <= INSERT,
        index < index_bound(mode, list.0@.len()),
        element.is_some() <==> mode == INSERT,
    ensures
        mode == INDEX ==> r == list.0@[index as int],
        mode == REMOVE ==> r is List && r->List_0.0@ == list.0@.remove(index as int),
        mode == INSERT ==> r is List && r->List_0.0@ == list.0@.insert(
            index as int,
            element.unwrap(),
        ),
{
    if mode == INDEX {
        list.get(index).clone()
    } else if mode == REMOVE {
        let mut v = list.to_vec();
        let _ = v.remove(index);
        Atom::List(List::new(v))
    } else {
        let mut v = list.to_vec();
        match element {
            Some(e) => v.insert(index, e),
            None => {},
        }
        Atom::List(List::new(v))
    }
}

/// The `Type` error message for a value that is not of the kind `kind`.
pub open spec fn not_a_msg(a: Atom, kind: Seq<char>) -> Seq<char> {
    display_text(a@) + " is not a "@ + kind
}

/// What the list API gives for the values of its arguments: the mode, then
/// the list, then the index, then the element to insert. Without a mode, an
/// invalid mode or the wrong number of arguments for the mode, it raises an
/// `Argument` error; a mode or index that is not an integer, or a list that
/// is not a list, a `Type` error. Mode 1 gives the length; modes 2 to 4 check
/// the index (an `Index` error below 0 or at or past [`index_bound`]) and
/// give the element, the list without it, or the list with the element
/// inserted before it.
pub open spec fn list_api_values(vals: Seq<Atom>, r: Result<Atom, Exception>) -> bool {
    if vals.len() == 0 {
        r matches Err(e) && e.error@ == ArgumentError@ && e.msg@ == "arg mismatch: no mode given"@
    } else {
        match vals[0] {
            Atom::Int(m) => if !(LEN <= m <= INSERT) {
                r matches Err(e) && e.error@ == ArgumentError@ && e.msg@ == "invalid mode "@ + int_digits(
                    m as int,
                )
            } else if vals.len() - 1 != list_mode_argc(m) {
                r matches Err(e) && e.error@ == ArgumentError@ && e.msg@ == "arg mismatch: mode "@
                    + int_digits(m as int) + ": expected "@ + nat_digits(list_mode_argc(m))
                    + ", found "@ + nat_digits((vals.len() - 1) as nat)
            } else {
                match vals[1] {
                    Atom::List(l) => if m == LEN {
                        if l.0@.len() <= i64::MAX {
                            r == Ok::<Atom, Exception>(Atom::Int(l.0@.len() as i64))
                        } else {
                            r matches Err(e) && e.error@ == OverflowError@
                        }
                    } else {
                        match vals[2] {
                            Atom::Int(i) => l.0@.len() < usize::MAX ==> if 0 <= i < index_bound(
                                m,
                                l.0@.len(),
                            ) {
                                if m == INDEX {
                                    r == Ok::<Atom, Exception>(l.0@[i as int])
                                } else if m == REMOVE {
                                    r matches Ok(Atom::List(q)) && q.0@ == l.0@.remove(i as int)
                                } else {
                                    r matches Ok(Atom::List(q)) && q.0@ == l.0@.insert(i as int, vals[3])
                                }
                            } else {
                                r matches Err(e) && e.error@ == IndexError@
                            },
                            other => r matches Err(e) && e.error@ == TypeError@ && e.msg@ == not_a_msg(
                                other,
                                "Int"@,
                            ),
                        }
                    },
                    other => r matches Err(e) && e.error@ == TypeError@ && e.msg@ == not_a_msg(
                        other,
                        "List"@,
                    ),
                }
            },
            other => r matches Err(e) && e.error@ == TypeError@ && e.msg@ == not_a_msg(other, "Int"@),
        }
    }
}

/// The `Type` error for a value that is not of the kind `kind`.
fn type_mismatch(a: &Atom, kind: &str, backtrace: &[Span]) -> (e: Exception)
    ensures
        e.error@ == TypeError@,
        e.msg@ == not_a_msg(*a, kind@),
{
    let mut v: Vec<char> = Vec::new();
    push_chars(&mut v, &chars_of(a.to_string().as_str()));
    push_str(&mut v, " is not a ");
    push_str(&mut v, kind);
    Exception::with_trace(TypeError, string_from_chars(&v).as_str(), backtrace)
}

/// The list API on the values of its arguments (see [`list_api_values`]);
/// the list given is left as it is.
pub fn list_api_on_values(vals: &[Atom], backtrace: &[Span]) -> (r: Result<Atom, Exception>)
    ensures
        list_api_values(vals@, r),
{
    if vals.len() == 0 {
        return Err(Exception::with_trace(ArgumentError, "arg mismatch: no mode given", backtrace));
    }
    let mode = match &vals[0] {
        Atom::Int(m) => *m,
        other => {
            return Err(type_mismatch(other, "Int", backtrace));
        },
    };
    if mode < LEN || mode > INSERT {
        let mut v: Vec<char> = Vec::new();
        push_str(&mut v, "invalid mode ");
        push_i64(&mut v, mode);
        return Err(Exception::with_trace(ArgumentError, string_from_chars(&v).as_str(), backtrace));
    }
    let expected = expected_list_argc(mode);
    if vals.len() - 1 != expected {
        let mut v: Vec<char> = Vec::new();
        push_str(&mut v, "arg mismatch: mode ");
        push_i64(&mut v, mode);
        push_str(&mut v, ": expected ");
        push_u64(&mut v, expected as u64);
        push_str(&mut v, ", found ");
        push_u64(&mut v, (vals.len() - 1) as u64);
        return Err(Exception::with_trace(ArgumentError, string_from_chars(&v).as_str(), backtrace));
    }
    let list = match &vals[1] {
        Atom::List(l) => l,
        other => {
            return Err(type_mismatch(other, "List", backtrace));
        },
    };
    if mode == LEN {
        return list_len(list, backtrace);
    }
    let index = match &vals[2] {
        Atom::Int(i) => *i,
        other => {
            return Err(type_mismatch(other, "Int", backtrace));
        },
    };
    if list.len() == usize::MAX {
        return Err(Exception::with_trace(OverflowError, "list too long", backtrace));
    }
    let i = list_index_checked(mode, list.len(), index, backtrace)?;
    if mode == INSERT {
        Ok(builtin_list_api(mode, list, i, Some(vals[3].clone())))
    } else {
        Ok(builtin_list_api(mode, list, i, None))
    }
}

} // verus!
