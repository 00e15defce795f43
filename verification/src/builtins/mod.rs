//! The builtin functions of the language: the table of their names,
//! documentation and argument counts, and the computations behind them.

use crate::atom::{Atom, Function, FunctionBody};
use vstd::prelude::*;

pub mod fn_def;
pub mod import;
pub mod list;
pub mod math;
pub mod run;
pub mod ty;

verus! {

/// The names of the builtin functions, in the order of [`all_functions`].
pub open spec fn builtin_names() -> Seq<Seq<char>> {
    seq!["_"@, "="@, "ifelse"@, "while"@, "error"@, "exit"@, "eval"@, "global"@, "try_except"@, "printable"@, "for_in"@, "doc"@, "argc"@, "input"@, "write"@, "||"@, "&&"@, "def"@, "fn"@, "__builtin_print_catch"@, "__builtin_now"@, "__builtin_now_nanos_part"@, "__builtin_atom_eq"@, "__builtin_atom_cmp"@, "__builtin_cr"@, "type"@, "."@, "->"@, "@"@, "type_id"@, "default_value"@, "impl"@, "__builtin_int_math"@, "__builtin_int_shift"@, "import"@, "__builtin_list_api"@, "__builtin_prelude_import"@]
}

/// The argument counts of the builtin functions, in the order of [`all_functions`].
pub open spec fn builtin_argcs() -> Seq<Option<usize>> {
    seq![None, Some(2usize), Some(3usize), Some(2usize), Some(2usize), Some(1usize), Some(1usize), Some(2usize), None, Some(1usize), Some(3usize), Some(1usize), Some(1usize), Some(0usize), Some(1usize), Some(2usize), Some(2usize), None, None, Some(1usize), Some(0usize), Some(0usize), Some(2usize), Some(3usize), Some(0usize), None, Some(2usize), Some(3usize), None, Some(1usize), Some(3usize), None, Some(3usize), Some(3usize), Some(1usize), None, Some(0usize)]
}

/// The argument count of the builtin at index `k` of the table.
pub fn builtin_argc(k: usize) -> (r: Option<usize>)
    requires
        k < builtin_argcs().len(),
    ensures
        r == builtin_argcs()[k as int],
{
    if k == 0 {
        None
    } else if k == 1 {
        Some(2)
    } else if k == 2 {
        Some(3)
    } else if k == 3 {
        Some(2)
    } else if k == 4 {
        Some(2)
    } else if k == 5 {
        Some(1)
    } else if k == 6 {
        Some(1)
    } else if k == 7 {
        Some(2)
    } else if k == 8 {
        None
    } else if k == 9 {
        Some(1)
    } else if k == 10 {
        Some(3)
    } else if k == 11 {
        Some(1)
    } else if k == 12 {
        Some(1)
    } else if k == 13 {
        Some(0)
    } else if k == 14 {
        Some(1)
    } else if k == 15 {
        Some(2)
    } else if k == 16 {
        Some(2)
    } else if k == 17 {
        None
    } else if k == 18 {
        None
    } else if k == 19 {
        Some(1)
    } else if k == 20 {
        Some(0)
    } else if k == 21 {
        Some(0)
    } else if k == 22 {
        Some(2)
    } else if k == 23 {
        Some(3)
    } else if k == 24 {
        Some(0)
    } else if k == 25 {
        None
    } else if k == 26 {
        Some(2)
    } else if k == 27 {
        Some(3)
    } else if k == 28 {
        None
    } else if k == 29 {
        Some(1)
    } else if k == 30 {
        Some(3)
    } else if k == 31 {
        None
    } else if k == 32 {
        Some(3)
    } else if k == 33 {
        Some(3)
    } else if k == 34 {
        Some(1)
    } else if k == 35 {
        None
    } else {
        Some(0)
    }
}

/// One builtin function: its name, documentation and argument count.
fn builtin(table: &mut Vec<(String, Atom)>, name: &str, doc: &str, argc: Option<usize>)
    requires
        old(table)@.len() < usize::MAX,
    ensures
        final(table)@.len() == old(table)@.len() + 1,
        forall|k: int| 0 <= k < old(table)@.len() ==> #[trigger] final(table)@[k] == old(table)@[k],
        final(table)@.last().0@ == name@,
        final(table)@.last().1 matches Atom::Function(f) && f.0.argc == argc && f.0.doc@ == doc@
            && f.0.body == FunctionBody::Builtin(old(table)@.len() as usize),
{
    let n = name.to_owned();
    let f = Function::new(doc.to_owned(), argc, FunctionBody::Builtin(table.len()));
    table.push((n, Atom::Function(f)));
}

/// The builtin functions, each with its name.
pub fn all_functions() -> (r: Vec<(String, Atom)>)
    ensures
        r@.len() == builtin_names().len(),
        forall|k: int| 0 <= k < r@.len() ==> (#[trigger] r@[k]).0@ == builtin_names()[k] && (r@[k].1 matches Atom::Function(f)
            && f.0.argc == builtin_argcs()[k] && f.0.body == FunctionBody::Builtin(k as usize)),
{
    let mut t: Vec<(String, Atom)> = Vec::new();
    builtin(&mut t, "_", " Evaluates all given arguments and returns the atom the last argument evaluated to.\n If no arguments are given, `null` is returned.\n\n Every program is implicitly wrapped in a call to this function.\n\n This function has an alias: `run`.", None);
    builtin(&mut t, "=", " Assigns the second argument to a variable named like the first argument.\n\n This function has an alias: `assign`.", Some(2));
    builtin(&mut t, "ifelse", " Evaluates the first argument as a boolean.\n If it evaluates to true, the second argument is evaluated and returned.\n If it evaluates to false, the third argument is evaluated and returned instead.", Some(3));
    builtin(&mut t, "while", " Repeatedly evaluates the first argument as a boolean.\n If it evaluates to true, the second argument is evaluated and the same steps begin again.\n If it evaluates to false, the loop ends and `null` is returned.", Some(2));
    builtin(&mut t, "error", " Raises an exception.\n The first argument is a string that describes the error kind.\n The second argument is a string error message.\n\n The error kind should be a captialized word.\n When displaying the error kind, `Error` will be appended implicitly, so the error kind given\n here should not end in `Error`, `Exception` or similar.", Some(2));
    builtin(&mut t, "exit", " Evaluates the given argument and terminates the program directly.\n The program will return the given value as its final result.\n\n If the argument causes an exception, it is not returned directly\n and the exception may still be caught with `try_except`.\n\n If `exit` is reached via an `import`-ed module, it will stop the main program too.", Some(1));
    builtin(&mut t, "eval", " Evaluates the given argument as a string, then treats this string as Regulus code and executes it.\n Returns the result of that program.\n\n Variables defined inside the evaluated code are not visible outside of the `eval` invocation.\n\n TODO: think about imports, test them", Some(1));
    builtin(&mut t, "global", " Defines a new variable as global and assigns it the given value.", Some(2));
    builtin(&mut t, "try_except", " Executes the first argument. If it raises an uncaught exception, runs the second argument.\n This optionally takes an identifier as a third argument. If it is passed, it will be\n assigned the stringified exception message.\n\n If the second argument also throws an exception, it will not be caught by this call and\n propagate further.\n\n This returns what the first argument evaluates to (if successful),\n otherwise it returns the eval of the second arg.", None);
    builtin(&mut t, "printable", " Evaluates the given arg and returns a string representation of it.\n See the documentation of `string(1)` for a comparison of these two methods.\n Note that the exact output format is not yet stable and may change, especially regarding\n objects.\n\n This is identical to the output of `write`.", Some(1));
    builtin(&mut t, "for_in", " Iterates over the given list elements.\n The first argument is the list, the second the loop variable name for each element and the\n third is the body that will be run for each of these elements.\n Afterwards, `null` is returned.", Some(3));
    builtin(&mut t, "doc", " Returns the documentation string for a function.", Some(1));
    builtin(&mut t, "argc", " Returns the argument count for a function, or `null` if it has none.", Some(1));
    builtin(&mut t, "input", " Takes no arguments and reads from stdin until a newline is entered.\n Returns the read input, excluding the newline, as a string.", Some(0));
    builtin(&mut t, "write", " Evaluates the given argument and prints it to stdout, without any additional spaces or newline.", Some(1));
    builtin(&mut t, "||", " Evaluates both arguments as booleans and performs short-circuiting OR on them.", Some(2));
    builtin(&mut t, "&&", " Evaluates both arguments as booleans and performs short-circuiting AND on them.", Some(2));
    builtin(&mut t, "def", " Defines a new function.\n The first argument is the function identifier and the last argument is the function body.\n All arguments in between are the names of the function arguments that can be accessed in\n the function body.\n Values defined in the function are scoped and cannot be accessed outside of the function body.", None);
    builtin(&mut t, "fn", " Creates a new function and returns it.\n\n The last argument is the function body.\n All arguments before are the names of the function arguments that can be accessed in\n the function body.\n Values defined in the function are scoped and cannot be accessed outside of the function body.", None);
    builtin(&mut t, "__builtin_print_catch", " Evaluates the given argument, extracts the exception and prints it to stderr.\n Not meant to be used outside of tests.", Some(1));
    builtin(&mut t, "__builtin_now", " Returns the current time in seconds (Unix epoch) as an integer.\n\n The stable version of this function is in the `time` STL module.", Some(0));
    builtin(&mut t, "__builtin_now_nanos_part", " Returns the nanosecond part of the current time as an integer.\n\n The stable version of this function is in the `time` STL module.", Some(0));
    builtin(&mut t, "__builtin_atom_eq", " Evaluates both arguments and returns whether they are equal.", Some(2));
    builtin(&mut t, "__builtin_atom_cmp", " Compares both arguments.\n Arguments: mode, lhs, rhs.\n Raises an exception if the comparison is not supported.", Some(3));
    builtin(&mut t, "__builtin_cr", " Hack since string escape codes do not exist yet.", Some(0));
    builtin(&mut t, "type", " Defines a new type.\n The first argument must be given and is the ident of the type.\n All further arguments are its fields, given as identifiers.", None);
    builtin(&mut t, ".", " Get the value of a field of an object.\n\n The first argument is the object, the second is its name as a variable.\n\n If the field does not exist on the object, an exception is raised.\n\n This function has an alias: `getattr`.", Some(2));
    builtin(&mut t, "->", " Set the value of a field of an object to a new value and returns the updated object.\n\n The first argument is the object, the second is its name as a variable and the third is the new value.\n\n If the field does not exist on the object, an exception is raised.\n TODO: think if it should be allowed to add fields with this that did not exist before or not\n\n This function has an alias: `setattr`.", Some(3));
    builtin(&mut t, "@", " Calls a method on an object with the given arguments.\n The object itself is implicitly added as the first argument to the method.\n\n The first argument is the object, the second the identifier of the method and all further arguments are the arguments to the method.\n\n This method has an alias: `call_method`.", None);
    builtin(&mut t, "type_id", " Returns the type id corresponding to the given value.\n\n A type id is a positive integer. Each primitive type has a distinct ID\n (note that its value may change in future versions):\n All objects have arbitrary type ids that are larger than any of the primitive type IDs.\n\n To access them, use the constants in the `type_id.re` STL module\n and the `is_*` (`int`, `bool`, ...) family of functions in that module.", Some(1));
    builtin(&mut t, "default_value", " Set a field of a type to a default value.\n Arguments: type name, field name, value.", Some(3));
    builtin(&mut t, "impl", " Defines a method on the given type with similar syntax to `def`.\n Arguments: type name, method name, any number of method args (usually starting with `self`), method body.", None);
    builtin(&mut t, "__builtin_int_math", " Internal function for integer math.", Some(3));
    builtin(&mut t, "__builtin_int_shift", " Internal function for integer bit shifts.", Some(3));
    builtin(&mut t, "import", " Imports a file, either from the stl or the local directory.\n Returns `null`.\n TODO document the exact algorithm and hierarchy more clearly, also the return value of this function", Some(1));
    builtin(&mut t, "__builtin_list_api", " Internal function to implement basic list functionality.", None);
    builtin(&mut t, "__builtin_prelude_import", " Imports the prelude from the STL.\n This is implicitly done on startup.\n Calling this function manually is not supported.", Some(0));
    t
}

} // verus!
