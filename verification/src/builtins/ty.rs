//! User-defined types: declaring them with `type`, building their objects and
//! reading and writing their fields.

use crate::argument::{Argument, ArgV};
use crate::atom::{Atom, Function, FunctionBody, Object};
use crate::exception::{ArgumentError, Exception, NameError, SyntaxError};
use crate::object::{field_lookup, keys_sorted};
use crate::span::Span;
use crate::text::{chars_eq, chars_of, push_str, string_from_chars};
use vstd::prelude::*;

verus! {

/// The field names that a `type` declaration lists, if all are variables.
pub open spec fn field_names(fields: Seq<ArgV>) -> Seq<Seq<char>> {
    Seq::new(fields.len(), |k: int| fields[k]->Variable_0)
}

/// The index of the first field that is not a variable, or that repeats an
/// earlier field, if any: where the declaration is refused.
pub open spec fn first_bad_field(fields: Seq<ArgV>, k: int) -> bool {
    ||| !(fields[k] is Variable)
    ||| exists|j: int| 0 <= j < k && fields[j]->Variable_0 == fields[k]->Variable_0
}

/// Checks the arguments of a `type` declaration: a variable naming the type,
/// then its fields as variables, each once. Returns the type's name and the
/// field names in order.
///
/// No arguments raise an `Argument` error; a first argument that is not a
/// variable raises an `Argument` error. The first field, in order, that is not
/// a variable raises a `Syntax` error, as does the first one that repeats an
/// earlier field.
pub fn type_(args: &[Argument], backtrace: &[Span]) -> (r: Result<(String, Vec<String>), Exception>)
    ensures
        args@.len() == 0 ==> (r matches Err(e) && e.error@ == ArgumentError@ && e.msg@
            == "`type` takes at least one argument"@),
        args@.len() > 0 && !(args@[0]@ is Variable) ==> (r matches Err(e) && e.error@
            == ArgumentError@ && e.msg@ == "`type` must take a variable as first argument"@),
        args@.len() > 0 && args@[0]@ is Variable ==> {
            let fs = args@.drop_first().map_values(|a: Argument| a@);
            &&& (forall|k: int| 0 <= k < fs.len() ==> !first_bad_field(fs, k)) ==> (r matches Ok(
                (name, fields),
            ) && {
                &&& name@ == args@[0]@->Variable_0
                &&& fields@.len() == fs.len()
                &&& forall|k: int| 0 <= k < fs.len() ==> (#[trigger] fields@[k])@ == fs[k]->Variable_0
            })
            &&& forall|k: int|
                0 <= k < fs.len() && first_bad_field(fs, k) && (forall|j: int|
                    0 <= j < k ==> !first_bad_field(fs, j)) ==> (r matches Err(e) && {
                    &&& e.error@ == SyntaxError@
                    &&& !(fs[k] is Variable) ==> e.msg@ == "`type` field arguments should be variables"@
                    &&& fs[k] is Variable ==> e.msg@ == "duplicate `type` field `"@
                        + fs[k]->Variable_0 + "`"@
                })
        },
        r matches Err(e) ==> e.backtrace.is_some() && e.backtrace.unwrap()@ == backtrace@,
{
    if args.len() == 0 {
        return Err(
            Exception::with_trace(ArgumentError, "`type` takes at least one argument", backtrace),
        );
    }
    let name = match args[0].variable("`type` must take a variable as first argument", backtrace) {
        Ok(n) => string_from_chars(&chars_of(n)),
        Err(e) => {
            return Err(e);
        },
    };
    let ghost fs = args@.drop_first().map_values(|a: Argument| a@);
    let mut fields: Vec<String> = Vec::new();
    let mut i: usize = 1;
    while i < args.len()
        invariant
            1 <= i <= args@.len(),
            fs == args@.drop_first().map_values(|a: Argument| a@),
            args@[0]@ is Variable,
            name@ == args@[0]@->Variable_0,
            fields@.len() == i - 1,
            forall|k: int| 0 <= k < i - 1 ==> !first_bad_field(fs, k),
            forall|k: int| 0 <= k < i - 1 ==> (#[trigger] fields@[k])@ == fs[k]->Variable_0,
        decreases args@.len() - i,
    {
        assert(fs[i - 1] == args@[i as int]@);
        match &args[i] {
            Argument::Variable(f, _) => {
                let fc = chars_of(f.as_str());
                let mut j: usize = 0;
                while j < fields.len()
                    invariant
                        0 <= j <= fields@.len(),
                        1 <= i < args@.len(),
                        args@[0]@ is Variable,
                        fs == args@.drop_first().map_values(|a: Argument| a@),
                        forall|k: int| 0 <= k < i - 1 ==> !first_bad_field(fs, k),
                        fields@.len() == i - 1,
                        fc@ == fs[i - 1]->Variable_0,
                        fc@ == f@,
                        fs[i - 1] is Variable,
                        forall|k: int| 0 <= k < i - 1 ==> (#[trigger] fields@[k])@ == fs[k]->Variable_0,
                        forall|k: int| 0 <= k < j ==> fs[k]->Variable_0 != fc@,
                    decreases fields@.len() - j,
                {
                    let other = chars_of(fields[j].as_str());
                    if chars_eq(&other, &fc) {
                        let mut v: Vec<char> = Vec::new();
                        push_str(&mut v, "duplicate `type` field `");
                        push_str(&mut v, f.as_str());
                        push_str(&mut v, "`");
                        let msg = string_from_chars(&v);
                        assert(first_bad_field(fs, i - 1)) by {
                            assert(fs[j as int]->Variable_0 == fs[i - 1]->Variable_0);
                        }
                        assert(msg@ == "duplicate `type` field `"@ + fs[i - 1]->Variable_0 + "`"@);
                        assert forall|k: int|
                            0 <= k < fs.len() && first_bad_field(fs, k) && (forall|jj: int|
                                0 <= jj < k ==> !first_bad_field(fs, jj)) implies k == i - 1 by {
                            if k > i - 1 {
                                assert(first_bad_field(fs, i - 1));
                            }
                        }
                        return Err(Exception::with_trace(SyntaxError, msg.as_str(), backtrace));
                    }
                    j = j + 1;
                }
                assert(!first_bad_field(fs, i - 1));
                fields.push(string_from_chars(&fc));
            },
            _ => {
                assert(first_bad_field(fs, i - 1));
                return Err(
                    Exception::with_trace(
                        SyntaxError,
                        "`type` field arguments should be variables",
                        backtrace,
                    ),
                );
            },
        }
        i = i + 1;
    }
    Ok((name, fields))
}

/// The constructor of a declared type: a function taking one argument per
/// field, with an empty documentation, that builds objects of type `ty_id`.
pub fn type_constructor(fields: Vec<String>, ty_id: i64) -> (r: Atom)
    ensures
        r matches Atom::Function(f) && {
            &&& f.0.doc@ == Seq::<char>::empty()
            &&& f.0.argc == Some(fields@.len() as usize)
            &&& f.0.body == FunctionBody::Constructor { fields, ty_id }
        },
{
    let n = fields.len();
    Atom::Function(Function::new(String::new(), Some(n), FunctionBody::Constructor { fields, ty_id }))
}

/// Builds an object of type `ty_id` with the given fields set to the given
/// values, as a constructor call does.
pub fn construct_object(fields: &Vec<String>, values: Vec<Atom>, ty_id: i64) -> (o: Object)
    requires
        fields@.len() == values@.len(),
    ensures
        o.ty_id == ty_id,
        keys_sorted(o.data@),
        forall|k: Seq<char>| #[trigger] field_lookup(o.data@, k) == crate::object::last_value(
            Seq::new(fields@.len(), |j: int| (fields@[j], values@[j])),
            k,
        ),
{
    let mut pairs: Vec<(String, Atom)> = Vec::new();
    let mut i: usize = 0;
    while i < fields.len()
        invariant
            fields@.len() == values@.len(),
            0 <= i <= fields@.len(),
            pairs@ == Seq::new(i as nat, |j: int| (fields@[j], values@[j])),
        decreases fields@.len() - i,
    {
        pairs.push((fields[i].clone(), values[i].clone()));
        i = i + 1;
        assert(pairs@ =~= Seq::new(i as nat, |j: int| (fields@[j], values@[j])));
    }
    Object::new(pairs, ty_id)
}

/// Reads a field of an object; a missing field raises a `Name` error.
pub fn get_field(obj: &Object, field: &str, backtrace: &[Span]) -> (r: Result<Atom, Exception>)
    ensures
        keys_sorted(obj.data@) ==> match field_lookup(obj.data@, field@) {
            Some(v) => r == Ok::<Atom, Exception>(v),
            None => r matches Err(e) && {
                &&& e.error@ == NameError@
                &&& e.msg@ == "object has no field named `"@ + field@ + "`"@
                &&& e.backtrace.is_some()
                &&& e.backtrace.unwrap()@ == backtrace@
            },
        },
{
    match obj.get(field) {
        Some(v) => Ok(v.clone()),
        None => {
            let mut v: Vec<char> = Vec::new();
            push_str(&mut v, "object has no field named `");
            push_str(&mut v, field);
            push_str(&mut v, "`");
            let msg = string_from_chars(&v);
            Err(Exception::with_trace(NameError, msg.as_str(), backtrace))
        },
    }
}

/// Sets an existing field of an object, returning the updated object; a
/// missing field raises a `Name` error. The given object is left as it is.
pub fn set_field(obj: &Object, field: &str, value: Atom, backtrace: &[Span]) -> (r: Result<
    Atom,
    Exception,
>)
    ensures
        keys_sorted(obj.data@) && field_lookup(obj.data@, field@).is_some() ==> (r matches Ok(Atom::Object(o)) && {
            &&& o.ty_id == obj.ty_id
            &&& field_lookup(o.data@, field@) == Some(value)
            &&& forall|k: Seq<char>|
                k != field@ ==> #[trigger] field_lookup(o.data@, k) == field_lookup(obj.data@, k)
        }),
        keys_sorted(obj.data@) && field_lookup(obj.data@, field@).is_none() ==> (r matches Err(e) && {
            &&& e.error@ == NameError@
            &&& e.msg@ == "object has no field named `"@ + field@ + "`"@
            &&& e.backtrace.is_some()
            &&& e.backtrace.unwrap()@ == backtrace@
        }),
{
    match obj.with_field(field, value) {
        Some(o) => Ok(Atom::Object(o)),
        None => {
            let mut v: Vec<char> = Vec::new();
            push_str(&mut v, "object has no field named `");
            push_str(&mut v, field);
            push_str(&mut v, "`");
            let msg = string_from_chars(&v);
            Err(Exception::with_trace(NameError, msg.as_str(), backtrace))
        },
    }
}

} // verus!
