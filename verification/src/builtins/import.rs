//! Resolving `import`: which names can be imported and where their code is
//! found.

use crate::exception::{Exception, ImportError};
use crate::span::Span;
use crate::text::{chars_eq, chars_of, push_str, string_from_chars};
use vstd::prelude::*;

verus! {

/// Files need to end with this extension to be considered by import resolution.
pub const FILE_EXTENSION: &'static str = "re";

/// Whether a character may appear in an import name: an ASCII letter or
/// digit, or `_`.
pub open spec fn import_char(c: char) -> bool {
    ('a' <= c <= 'z') || ('A' <= c <= 'Z') || ('0' <= c <= '9') || c == '_'
}

/// Whether every character of a name may appear in an import name.
pub open spec fn valid_import_name(s: Seq<char>) -> bool {
    forall|k: int| 0 <= k < s.len() ==> import_char(#[trigger] s[k])
}

/// Checks the name given to `import`: only ASCII letters, digits and `_` are
/// allowed, else an `Import` error names it.
pub fn check_import_name(name: &str, backtrace: &[Span]) -> (r: Result<(), Exception>)
    ensures
        valid_import_name(name@) ==> r is Ok,
        !valid_import_name(name@) ==> (r matches Err(e) && {
            &&& e.error@ == ImportError@
            &&& e.msg@ == "invalid characters in import name `"@ + name@
                + "`, only a-Z, 0-9 and _ are allowed"@
            &&& e.backtrace.is_some()
            &&& e.backtrace.unwrap()@ == backtrace@
        }),
{
    let cs = chars_of(name);
    let mut i: usize = 0;
    while i < cs.len()
        invariant
            cs@ == name@,
            0 <= i <= cs@.len(),
            forall|k: int| 0 <= k < i ==> import_char(#[trigger] cs@[k]),
        decreases cs@.len() - i,
    {
        let c = cs[i];
        let ok = ('a' <= c && c <= 'z') || ('A' <= c && c <= 'Z') || ('0' <= c && c <= '9')
            || c == '_';
        if !ok {
            let mut v: Vec<char> = Vec::new();
            push_str(&mut v, "invalid characters in import name `");
            push_str(&mut v, name);
            push_str(&mut v, "`, only a-Z, 0-9 and _ are allowed");
            let msg = string_from_chars(&v);
            assert(!import_char(name@[i as int]));
            return Err(Exception::with_trace(ImportError, msg.as_str(), backtrace));
        }
        i = i + 1;
    }
    Ok(())
}

/// The name of the file that holds the module `name`: `name.re`.
pub open spec fn import_file_name_spec(name: Seq<char>) -> Seq<char> {
    name + "."@ + FILE_EXTENSION@
}

/// The name of the file that holds the module `name`.
pub fn import_file_name(name: &str) -> (s: String)
    ensures
        s@ == import_file_name_spec(name@),
{
    let mut v: Vec<char> = Vec::new();
    push_str(&mut v, name);
    push_str(&mut v, ".");
    push_str(&mut v, FILE_EXTENSION);
    string_from_chars(&v)
}

/// Finds the module `name` among the names of the files of a directory: the
/// index of the first entry named [`import_file_name_spec`], if any.
pub fn find_import_file(entries: &[String], name: &str) -> (r: Option<usize>)
    ensures
        match r {
            Some(i) => i < entries@.len() && entries@[i as int]@ == import_file_name_spec(name@)
                && forall|k: int|
                0 <= k < i ==> (#[trigger] entries@[k])@ != import_file_name_spec(name@),
            None => forall|k: int|
                0 <= k < entries@.len() ==> (#[trigger] entries@[k])@ != import_file_name_spec(
                    name@,
                ),
        },
{
    let target = chars_of(import_file_name(name).as_str());
    let mut i: usize = 0;
    while i < entries.len()
        invariant
            target@ == import_file_name_spec(name@),
            0 <= i <= entries@.len(),
            forall|k: int|
                0 <= k < i ==> (#[trigger] entries@[k])@ != import_file_name_spec(name@),
        decreases entries@.len() - i,
    {
        let e = chars_of(entries[i].as_str());
        if chars_eq(&e, &target) {
            return Some(i);
        }
        i = i + 1;
    }
    None
}

/// The code of the module `name` of the standard library, given as pairs of
/// module names and code, if it has one (the first of that name).
pub fn try_resolve_import_in_stl(stl: &[(String, String)], name: &str) -> (r: Option<String>)
    ensures
        match r {
            Some(code) => exists|i: int|
                0 <= i < stl@.len() && (#[trigger] stl@[i]).0@ == name@ && stl@[i].1@ == code@
                    && forall|k: int| 0 <= k < i ==> (#[trigger] stl@[k]).0@ != name@,
            None => forall|k: int| 0 <= k < stl@.len() ==> (#[trigger] stl@[k]).0@ != name@,
        },
{
    let target = chars_of(name);
    let mut i: usize = 0;
    while i < stl.len()
        invariant
            target@ == name@,
            0 <= i <= stl@.len(),
            forall|k: int| 0 <= k < i ==> (#[trigger] stl@[k]).0@ != name@,
        decreases stl@.len() - i,
    {
        let e = chars_of(stl[i].0.as_str());
        if chars_eq(&e, &target) {
            let code = string_from_chars(&chars_of(stl[i].1.as_str()));
            assert(stl@[i as int].0@ == name@);
            return Some(code);
        }
        i = i + 1;
    }
    None
}

} // verus!
