use regulus::argument::Argument;
use regulus::atom::{Atom, FunctionBody, List, Object};
use regulus::builtins::fn_def::{check_argc, check_variadic_args, define_function, FnArgument};
use regulus::builtins::import::{
    check_import_name, find_import_file, import_file_name, try_resolve_import_in_stl,
};
use regulus::builtins::list::{builtin_list_api, list_api_on_values, int_from_usize, list_index_checked, list_len};
use regulus::builtins::math::{builtin_int_math, builtin_int_shift};
use regulus::builtins::ty::{construct_object, get_field, set_field, type_, type_constructor};
use regulus::builtins::{all_functions, builtin_argc};
use regulus::equality::atoms_equal;
use regulus::holevec::HoleVec;
use regulus::newlang::exception::{Error, Exception as OldException};
use regulus::optimizations::run_optimizations;
use regulus::parser::build_program;
use regulus::positions::Position;
use regulus::span::{check_positions_fit, no_path, Span};
use regulus::storage::Storage;
use regulus::token::tokenize;
use regulus::newlang::state::WriteHandle;
use regulus::text::{buffer_text, decode_utf8};

fn parse(code: &str) -> Argument {
    build_program(tokenize(code, no_path()).unwrap()).unwrap()
}

fn args_of(code: &str) -> Vec<Argument> {
    match parse(code) {
        Argument::FunctionCall(call, _) => call.args,
        _ => panic!("not a call"),
    }
}

fn chars(s: &str) -> Atom {
    Atom::new_string(s)
}

#[test]
fn int_math_results() {
    assert_eq!(builtin_int_math(0, 2, 3, &[]).unwrap(), Atom::Int(5));
    assert_eq!(builtin_int_math(1, 2, 3, &[]).unwrap(), Atom::Int(-1));
    assert_eq!(builtin_int_math(2, -4, 3, &[]).unwrap(), Atom::Int(-12));
    assert_eq!(builtin_int_math(3, 7, -2, &[]).unwrap(), Atom::Int(-3));
    assert_eq!(builtin_int_math(4, -7, 2, &[]).unwrap(), Atom::Int(-1));
    assert_eq!(builtin_int_math(5, 6, 3, &[]).unwrap(), Atom::Int(5));
}

#[test]
fn int_math_errors() {
    let e = builtin_int_math(0, i64::MAX, 1, &[]).unwrap_err();
    assert_eq!(e.error, "Overflow");
    assert_eq!(e.msg, "overflow occured during +");
    let e = builtin_int_math(4, i64::MIN, -1, &[]).unwrap_err();
    assert_eq!(e.msg, "overflow occured during %");
    let e = builtin_int_math(3, i64::MIN, -1, &[]).unwrap_err();
    assert_eq!(e.msg, "overflow occured during /");
    let e = builtin_int_math(4, 1, 0, &[]).unwrap_err();
    assert_eq!(e.error, "DivideByZero");
    assert_eq!(e.msg, "attempted to divide by zero");
}

#[test]
fn int_shift_results_and_errors() {
    assert_eq!(builtin_int_shift(0, 1, 3, &[]).unwrap(), Atom::Int(8));
    assert_eq!(builtin_int_shift(1, -8, 1, &[]).unwrap(), Atom::Int(-4));
    let e = builtin_int_shift(0, 1, 64, &[]).unwrap_err();
    assert_eq!(e.error, "Overflow");
    assert_eq!(e.msg, "<< operation failed");
    let e = builtin_int_shift(1, 1, -1, &[]).unwrap_err();
    assert_eq!(e.error, "Argument");
    assert_eq!(
        e.msg,
        "shift amount too big for `>>`: `out of range integral type conversion attempted`"
    );
}

#[test]
fn list_operations() {
    let l = List::new(vec![Atom::Int(1), Atom::Int(2), Atom::Int(3)]);
    assert_eq!(list_len(&l, &[]).unwrap(), Atom::Int(3));
    assert_eq!(int_from_usize(7, &[]).unwrap(), Atom::Int(7));
    assert_eq!(list_index_checked(2, 3, 2, &[]).unwrap(), 2);
    assert_eq!(list_index_checked(4, 3, 3, &[]).unwrap(), 3);
    let e = list_index_checked(2, 3, 3, &[]).unwrap_err();
    assert_eq!(e.msg, "index 3 out of bounds for list of len 3");
    let e = list_index_checked(3, 3, -1, &[]).unwrap_err();
    assert_eq!(e.msg, "invalid list index: out of range integral type conversion attempted");
    assert_eq!(builtin_list_api(2, &l, 1, None), Atom::Int(2));
    assert_eq!(builtin_list_api(3, &l, 0, None).to_string(), "[2, 3]");
    assert_eq!(builtin_list_api(4, &l, 3, Some(Atom::Int(4))).to_string(), "[1, 2, 3, 4]");
    assert_eq!(l.len(), 3);
}

#[test]
fn fn_argument_markers() {
    let a = FnArgument::new("[$xs]");
    assert_eq!((a.name.as_str(), a.variadic, a.lazy), ("xs", true, true));
    let a = FnArgument::new("$x");
    assert_eq!((a.name.as_str(), a.variadic, a.lazy), ("x", false, true));
    let a = FnArgument::new("[b]");
    assert_eq!((a.name.as_str(), a.variadic, a.lazy), ("b", true, false));
    let a = FnArgument::new("[");
    assert_eq!((a.name.as_str(), a.variadic, a.lazy), ("[", false, false));
}

#[test]
fn function_definitions() {
    let args = args_of("f(a, [b], body)");
    let f = define_function(&args[2], &args[0..2], "doc", &[]).unwrap();
    match f {
        Atom::Function(f) => {
            assert_eq!(f.argc(), None);
            assert_eq!(f.doc(), "doc");
            match f.body() {
                FunctionBody::Defined { params, .. } => assert_eq!(params.len(), 2),
                _ => panic!("not defined"),
            }
        }
        _ => panic!("not a function"),
    }
    let args = args_of("f(a, b, body)");
    let f = define_function(&args[2], &args[0..2], "", &[]).unwrap();
    assert_eq!(f.to_string(), "<function>(2)");
    let args = args_of("f([a], b, body)");
    let e = define_function(&args[2], &args[0..2], "", &[]).unwrap_err();
    assert_eq!(e.msg, "variadic argument must be the last of the fn arguments");
    let args = args_of("f(1, body)");
    let e = define_function(&args[1], &args[0..1], "", &[]).unwrap_err();
    assert_eq!(e.msg, "Error during definition: invalid args were given!");
    let e = check_argc(Some(2), 1, Some("g"), &[]).unwrap_err();
    assert_eq!(e.msg, "expected `2` args, found `1` args for `g`");
    let e = check_argc(Some(0), 1, None, &[]).unwrap_err();
    assert_eq!(e.msg, "expected `0` args, found `1` args");
    assert!(check_argc(None, 5, None, &[]).is_ok());
    assert!(check_variadic_args(3, 2, &[]).is_ok());
    assert!(check_variadic_args(3, 1, &[]).is_err());
}

#[test]
fn type_declarations() {
    let (name, fields) = type_(&args_of("type(P, x, y)"), &[]).unwrap();
    assert_eq!(name, "P");
    assert_eq!(fields, vec!["x".to_string(), "y".to_string()]);
    let e = type_(&args_of("type(P, x, x)"), &[]).unwrap_err();
    assert_eq!((e.error.as_str(), e.msg.as_str()), ("Syntax", "duplicate `type` field `x`"));
    let e = type_(&args_of("type(P, 1)"), &[]).unwrap_err();
    assert_eq!(e.msg, "`type` field arguments should be variables");
    let e = type_(&args_of("type(1)"), &[]).unwrap_err();
    assert_eq!(e.msg, "`type` must take a variable as first argument");
    let e = type_(&[], &[]).unwrap_err();
    assert_eq!(e.msg, "`type` takes at least one argument");
    let ctor = type_constructor(fields.clone(), 9);
    assert_eq!(ctor.to_string(), "<function>(2)");
    let o = construct_object(&fields, vec![Atom::Int(1), Atom::Int(2)], 9);
    assert_eq!(o.ty_id, 9);
    assert_eq!(get_field(&o, "y", &[]).unwrap(), Atom::Int(2));
    let e = get_field(&o, "z", &[]).unwrap_err();
    assert_eq!(e.msg, "object has no field named `z`");
    let o2 = set_field(&o, "x", Atom::Bool(true), &[]).unwrap();
    assert_eq!(o2.to_string(), "{x: true, y: 2}");
    assert!(set_field(&o, "q", Atom::Null, &[]).is_err());
}

#[test]
fn objects_keep_the_last_value() {
    let o = Object::new(
        vec![
            ("b".to_string(), Atom::Int(1)),
            ("a".to_string(), Atom::Int(2)),
            ("b".to_string(), Atom::Int(3)),
        ],
        6,
    );
    assert_eq!(o.get("b"), Some(&Atom::Int(3)));
    assert_eq!(o.fields().len(), 2);
    assert_eq!(Atom::Object(o).to_string(), "{a: 2, b: 3}");
}

#[test]
fn import_names() {
    assert!(check_import_name("abc_1", &[]).is_ok());
    let e = check_import_name("a-b", &[]).unwrap_err();
    assert_eq!(e.error, "Import");
    assert_eq!(
        e.msg,
        "invalid characters in import name `a-b`, only a-Z, 0-9 and _ are allowed"
    );
    assert_eq!(import_file_name("x"), "x.re");
    let entries = vec!["a.txt".to_string(), "x.re".to_string()];
    assert_eq!(find_import_file(&entries, "x"), Some(1));
    assert_eq!(find_import_file(&entries, "a"), None);
    let stl = vec![("m".to_string(), "1".to_string()), ("m".to_string(), "2".to_string())];
    assert_eq!(try_resolve_import_in_stl(&stl, "m"), Some("1".to_string()));
    assert_eq!(try_resolve_import_in_stl(&stl, "n"), None);
}

#[test]
fn underscore_calls_are_inlined() {
    let mut p = parse("_()");
    run_optimizations(&mut p);
    assert!(matches!(p, Argument::Atom(Atom::Null, _)));
    let mut p = parse("_(x)");
    run_optimizations(&mut p);
    assert_eq!(p.stringify(), "x");
    let mut p = parse("_(_(1))");
    run_optimizations(&mut p);
    assert_eq!(p.stringify(), "_(1)");
    let mut p = parse("f(_(1), _(a, b))");
    run_optimizations(&mut p);
    assert_eq!(p.stringify(), "f(1, _(a, b))");
}

#[test]
fn hole_vec_moves_elements_out() {
    let mut v = HoleVec::from_vec(vec![10, 20, 30]);
    assert_eq!(v.len(), 3);
    assert_eq!(v.at(1), 20);
    assert_eq!(v.get(5), None);
    assert_eq!(v.get(2), Some(30));
    v.push(40);
    assert_eq!(v.len(), 4);
    let w: HoleVec<i32> = HoleVec::default();
    assert_eq!(w.len(), 0);
    let mut it = HoleVec::from_vec(vec!['a', 'b']).into_iter();
    assert_eq!(it.next(), Some('a'));
    assert_eq!(it.next(), Some('b'));
    assert_eq!(it.next(), None);
}

#[test]
fn legacy_exceptions() {
    let e = OldException::new("bad thing", Error::Type);
    assert_eq!(e.to_string(), "Type: bad thing");
    assert_eq!(Error::UserRaised.name(), "UserRaised");
}

#[test]
fn storage_scopes() {
    let mut s = Storage::new();
    s.insert("x", Atom::Int(1));
    s.start_scope();
    s.insert("x", Atom::Int(2));
    s.add_global("g", Atom::Int(7));
    assert_eq!(s.get("x"), Some(&Atom::Int(2)));
    s.end_scope();
    assert_eq!(s.get("x"), Some(&Atom::Int(1)));
    assert_eq!(s.get("g"), Some(&Atom::Int(7)));
    assert_eq!(s.undefine("x"), Some(Atom::Int(1)));
    assert_eq!(s.get("x"), None);
    let initial = Storage::initial();
    assert!(initial.get("ifelse").is_some());
    assert_eq!(all_functions().len(), 37);
    assert_eq!(builtin_argc(2), Some(3));
}

#[test]
fn value_equality() {
    assert!(atoms_equal(&chars("ab"), &chars("ab")));
    assert!(!atoms_equal(&chars("ab"), &chars("a")));
    assert!(!atoms_equal(&Atom::Int(1), &Atom::Bool(true)));
    let f = all_functions().remove(0).1;
    assert!(!atoms_equal(&f, &f.clone()));
    assert!(atoms_equal(&Atom::Null, &Atom::Null));
}

#[test]
fn span_display() {
    let s = Span::new(Position::new(3, 4), Position::new(3, 5), no_path());
    assert_eq!(s.to_string(), "<file>:2:4");
    let s = Span::new(Position::new(1, 1), Position::new(1, 1), std::rc::Rc::new("m.re".to_string()));
    assert_eq!(s.to_string(), "m.re:0:1");
}

#[test]
fn buffers_decode_as_utf8() {
    assert_eq!(buffer_text(&vec![104, 0, 105, 0, 0]), Some("hi".to_string()));
    assert_eq!(buffer_text(&vec![0xff, 0x41]), None);
    assert_eq!(decode_utf8(vec![0xc3, 0xa9]), Some("é".to_string()));
    let mut h: WriteHandle<()> = WriteHandle::Buffer(Vec::new());
    h.write_to_buffer(b"ab");
    h.write_to_buffer(b"c");
    assert_eq!(h.read_buffer(), "abc".to_string());
}

#[test]
fn buffers_read_back_what_was_written() {
    let mut h: WriteHandle<()> = WriteHandle::Buffer(Vec::new());
    h.write_to_buffer("é".as_bytes());
    let before = h.read_buffer();
    h.write_to_buffer("x".as_bytes());
    assert_eq!(h.read_buffer(), format!("{before}x"));
    assert_eq!(buffer_text(&vec![0xc3, 0, 0xa9]), Some("é".to_string()));
}

#[test]
fn positions_fit_for_ordinary_text() {
    assert!(check_positions_fit(&vec!['a', '\n', 'b']));
    assert!(check_positions_fit(&Vec::new()));
}

#[test]
fn collecting_the_iterator_gives_the_elements_back() {
    let mut it = HoleVec::from_vec(vec![3, 1, 2]).into_iter();
    assert_eq!(it.collect_remaining(), vec![3, 1, 2]);
    assert_eq!(it.next(), None);
    let mut it = HoleVec::from_vec(vec!['x', 'y', 'z']).into_iter();
    assert_eq!(it.next(), Some('x'));
    assert_eq!(it.collect_remaining(), vec!['y', 'z']);
}

#[test]
fn list_api_on_evaluated_values() {
    let l = Atom::List(List::new(vec![Atom::Int(1), Atom::Int(2)]));
    assert_eq!(list_api_on_values(&[Atom::Int(1), l.clone()], &[]).unwrap(), Atom::Int(2));
    assert_eq!(list_api_on_values(&[Atom::Int(2), l.clone(), Atom::Int(1)], &[]).unwrap(), Atom::Int(2));
    let e = list_api_on_values(&[Atom::Int(2), l.clone(), Atom::Int(2)], &[]).unwrap_err();
    assert_eq!(e.error, "Index");
    let e = list_api_on_values(&[Atom::Int(3), l.clone(), Atom::Int(-1)], &[]).unwrap_err();
    assert_eq!(e.error, "Index");
    let r = list_api_on_values(&[Atom::Int(4), l.clone(), Atom::Int(2), Atom::Int(9)], &[]).unwrap();
    assert_eq!(r.to_string(), "[1, 2, 9]");
    let r = list_api_on_values(&[Atom::Int(3), l.clone(), Atom::Int(0)], &[]).unwrap();
    assert_eq!(r.to_string(), "[2]");
    assert_eq!(l.to_string(), "[1, 2]");
    let e = list_api_on_values(&[Atom::Int(1)], &[]).unwrap_err();
    assert_eq!(e.msg, "arg mismatch: mode 1: expected 1, found 0");
    let e = list_api_on_values(&[Atom::Int(9), l.clone()], &[]).unwrap_err();
    assert_eq!(e.msg, "invalid mode 9");
    let e = list_api_on_values(&[Atom::Bool(true), l], &[]).unwrap_err();
    assert_eq!(e.msg, "true is not a Int");
    assert!(list_api_on_values(&[], &[]).is_err());
}
