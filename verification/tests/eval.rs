use regulus::atom::Atom;
use regulus::parser::build_program;
use regulus::span::no_path;
use regulus::token::tokenize;
use regulus::exception::Exception;
use regulus::host::Host;
use regulus::state::{run, State};
use regulus::builtins::run::{clock_value, input_value};
use std::rc::Rc;

#[derive(Default)]
struct TestHost {
    stdout: String,
    stderr: String,
    stdin: Vec<String>,
    dirs: Vec<(String, Vec<(String, String)>)>,
    files: Vec<(String, String)>,
}

impl Host for TestHost {
    fn write_stdout(&mut self, text: &str) {
        self.stdout.push_str(text);
    }

    fn write_stderr(&mut self, text: &str) {
        self.stderr.push_str(text);
    }

    fn read_line(&mut self) -> Result<String, String> {
        if self.stdin.is_empty() {
            Ok(String::new())
        } else {
            Ok(self.stdin.remove(0))
        }
    }

    fn read_dir(&mut self, dir: &str) -> Result<Vec<(String, String)>, String> {
        for (d, entries) in &self.dirs {
            if d == dir {
                return Ok(entries.clone());
            }
        }
        Err(format!("no such directory: {dir}"))
    }

    fn read_file(&mut self, path: &str) -> Result<String, String> {
        for (p, code) in &self.files {
            if p == path {
                return Ok(code.clone());
            }
        }
        Err(format!("no such file: {path}"))
    }
}

fn no_stl() -> Rc<Vec<(String, String)>> {
    Rc::new(Vec::new())
}

fn eval_code(code: &str) -> Result<Atom, Exception> {
    let mut host = TestHost::default();
    run(code, no_stl(), &mut host)
}

fn int_of(code: &str) -> i64 {
    eval_code(code).unwrap().as_int().unwrap()
}

fn err_of(code: &str) -> Exception {
    eval_code(code).unwrap_err()
}

#[test]
fn bare_value_program_return() {
    let mut host = TestHost::default();
    assert_eq!(
        State::new(no_stl())
            .with_code("_(4)")
            .run(&mut host)
            .unwrap()
            .as_int()
            .unwrap(),
        4
    );
    assert_eq!(
        State::new(no_stl())
            .with_code("4")
            .run(&mut host)
            .unwrap()
            .as_int()
            .unwrap(),
        4
    );
    assert_eq!(
        State::new(no_stl())
            .with_code("=(x, 4), x")
            .run(&mut host)
            .unwrap()
            .as_int()
            .unwrap(),
        4
    );
}

#[test]
fn state_reuse_exit() {
    let mut host = TestHost::default();
    let mut state = State::new(no_stl()).with_code("exit(2)");
    assert_eq!(state.run(&mut host).unwrap(), Atom::Int(2));
    state = state.with_code("exit(1)");
    assert_eq!(state.run(&mut host).unwrap(), Atom::Int(1));
    state = state.with_code("3");
    assert_eq!(state.run(&mut host).unwrap(), Atom::Int(3));
}

#[test]
fn math_builtin_in_program() {
    assert_eq!(int_of("__builtin_int_math(0, 2, 3)"), 5);
    assert_eq!(int_of("__builtin_int_math(3, -7, 2)"), -3);
    assert_eq!(int_of("__builtin_int_shift(0, 1, 10)"), 1024);
    let e = err_of("__builtin_int_math(3, 1, 0)");
    assert_eq!(e.error, "DivideByZero");
    assert_eq!(e.msg, "attempted to divide by zero");
    assert_eq!(
        e.to_string(),
        "DivideByZeroError: attempted to divide by zero\nat <file>:1:19"
    );
}

#[test]
fn defined_functions() {
    assert_eq!(int_of("def(f, x, __builtin_int_math(2, x, x)), f(7)"), 49);
    assert_eq!(int_of("=(g, fn(a, b, __builtin_int_math(1, a, b))), g(10, 4)"), 6);
    let l = eval_code("def(v, [xs], xs), v(1, 2, 3)").unwrap();
    assert_eq!(l.to_string(), "[1, 2, 3]");
    let l = eval_code("def(w, a, [xs], xs), w(1)").unwrap();
    assert_eq!(l.to_string(), "");
    let e = err_of("def(w, a, b, [xs], xs), w(1)");
    assert_eq!(
        e.msg,
        "too few arguments to variadic function: expected at least 2, found 1"
    );
    let e = err_of("def(f, x, x), f(1, 2)");
    assert_eq!(e.msg, "expected `1` args, found `2` args for `f`");
    let e = err_of("def(f, [x], y, x)");
    assert_eq!(e.msg, "variadic argument must be the last of the fn arguments");
}

#[test]
fn function_scopes_do_not_leak() {
    let e = err_of("def(f, x, =(inner, 3)), f(1), inner");
    assert_eq!(e.error, "Name");
    assert_eq!(e.msg, "No variable named `inner` found!");
    assert_eq!(int_of("=(x, 1), def(f, x, x), f(5), x"), 1);
    assert_eq!(int_of("def(f, global(gl, 8)), f(), gl"), 8);
}

#[test]
fn lazy_arguments() {
    assert_eq!(int_of("def(h, $x, 5), h(error(\"A\", \"b\"))"), 5);
    assert_eq!(int_of("def(h, $x, x()), h(__builtin_int_math(0, 1, 1))"), 2);
}

#[test]
fn try_except_and_error() {
    assert_eq!(int_of("try_except(error(\"Foo\", \"bar\"), 1)"), 1);
    let s = eval_code("try_except(error(\"Foo\", \"bar\"), e, e)").unwrap();
    assert!(s.as_string().unwrap().starts_with("FooError: bar"));
    let e = err_of("try_except(1)");
    assert_eq!(
        e.msg,
        "invalid number of args for `try_except`: should be 2 or 3, was 1"
    );
}

#[test]
fn control_flow() {
    assert_eq!(int_of("ifelse(true, 1, 2)"), 1);
    assert_eq!(int_of("ifelse(false, 1, 2)"), 2);
    assert_eq!(
        int_of("=(i, 0), while(__builtin_atom_cmp(0, i, 5), =(i, __builtin_int_math(0, i, 1))), i"),
        5
    );
    assert_eq!(
        int_of("=(s, 0), for_in(__builtin_list_api(4, \"\", 0, 7), c, =(s, c)), s"),
        7
    );
    assert_eq!(eval_code("||(true, error(\"X\", \"y\"))").unwrap(), Atom::Bool(true));
    assert_eq!(eval_code("&&(false, error(\"X\", \"y\"))").unwrap(), Atom::Bool(false));
    let e = err_of("ifelse(1, 2, 3)");
    assert_eq!(e.error, "Type");
    assert_eq!(e.msg, "1 is not a Bool");
}

#[test]
fn types_and_objects() {
    assert_eq!(int_of("type(P, a, b), =(p, P(1, 2)), .(p, b)"), 2);
    assert_eq!(int_of("type(P, a, b), =(p, P(1, 2)), .(->(p, a, 5), a)"), 5);
    assert_eq!(int_of("type(P, a), type_id(P(1))"), 6);
    assert_eq!(int_of("type(P, a), type(Q, a), type_id(Q(1))"), 7);
    let e = err_of("type(P, a), .(P(1), z)");
    assert_eq!(e.msg, "object has no field named `z`");
    let e = err_of("type(P, a, a)");
    assert_eq!(e.error, "Syntax");
    assert_eq!(e.msg, "duplicate `type` field `a`");
    let o = eval_code("type(P, b, a), P(1, 2)").unwrap();
    assert_eq!(o.to_string(), "{a: 2, b: 1}");
    assert_eq!(
        int_of("type(P, a), impl(P, get, self, .(self, a)), @(P(41), get)"),
        41
    );
    assert_eq!(int_of("type(P, a), default_value(P, b, 3), .(P(1), b)"), 3);
}

#[test]
fn io_builtins() {
    let mut host = TestHost::default();
    host.stdin.push("abc\n".to_string());
    let r = run("write(\"hi\"), input()", no_stl(), &mut host).unwrap();
    assert_eq!(host.stdout, "hi");
    assert_eq!(r.as_string().unwrap(), "abc");
    let r = run("__builtin_print_catch(error(\"E\", \"m\"))", no_stl(), &mut host).unwrap();
    assert_eq!(r, Atom::Null);
    assert!(host.stderr.starts_with("EError: m"));
    assert!(host.stderr.ends_with('\n'));
}

#[test]
fn imports() {
    let stl = Rc::new(vec![("m".to_string(), "=(y, 3)".to_string())]);
    let mut host = TestHost::default();
    let r = run("import(m), y", stl.clone(), &mut host).unwrap();
    assert_eq!(r, Atom::Int(3));
    let e = run("import(nope)", stl.clone(), &mut host).unwrap_err();
    assert_eq!(e.msg, "failed to find file for importing `nope`");
    let e = run("import(a-b)", stl, &mut host);
    assert!(e.is_err());

    let stl = Rc::new(vec![("prelude".to_string(), "=(pre, 1)".to_string())]);
    let mut host = TestHost::default();
    host.dirs.push((
        "dir".to_string(),
        vec![("mod.re".to_string(), "dir/mod.re".to_string())],
    ));
    host.files
        .push(("dir/mod.re".to_string(), "global(z, 9), =(w, 2)".to_string()));
    let mut state = State::new(stl).with_code("import(mod), __builtin_int_math(0, z, w)");
    state = state.with_source_directory("dir");
    assert_eq!(state.run(&mut host).unwrap(), Atom::Int(11));
    let mut state = state.with_code("pre");
    assert_eq!(state.run(&mut host).unwrap(), Atom::Int(1));
}

#[test]
fn list_and_comparison_builtins() {
    assert_eq!(int_of("__builtin_list_api(1, \"abc\")"), 3);
    assert_eq!(eval_code("__builtin_list_api(2, \"abc\", 1)").unwrap(), Atom::Char('b'));
    let r = eval_code("__builtin_list_api(3, \"abc\", 0)").unwrap();
    assert_eq!(r.as_string().unwrap(), "bc");
    let r = eval_code("__builtin_list_api(4, \"ac\", 1, 5)").unwrap();
    assert_eq!(r.to_string(), "[a, 5, c]");
    let e = err_of("__builtin_list_api(2, \"abc\", 5)");
    assert_eq!(e.error, "Index");
    assert_eq!(e.msg, "index 5 out of bounds for list of len 3");
    assert_eq!(eval_code("__builtin_atom_eq(\"ab\", \"ab\")").unwrap(), Atom::Bool(true));
    assert_eq!(eval_code("__builtin_atom_eq(1, true)").unwrap(), Atom::Bool(false));
    assert_eq!(eval_code("__builtin_atom_cmp(1, 2, 2)").unwrap(), Atom::Bool(true));
    let e = err_of("__builtin_atom_cmp(0, null, 2)");
    assert_eq!(e.msg, "cannot compare null and 2");
}

#[test]
fn function_introspection() {
    assert_eq!(int_of("argc(ifelse)"), 3);
    assert_eq!(eval_code("argc(_)").unwrap(), Atom::Null);
    assert_eq!(
        eval_code("doc(global)").unwrap().as_string().unwrap(),
        " Defines a new variable as global and assigns it the given value."
    );
    assert_eq!(eval_code("printable(ifelse)").unwrap().as_string().unwrap(), "<function>(3)");
    let stl = Rc::new(vec![("prelude".to_string(), String::new())]);
    let mut host = TestHost::default();
    let r = run("eval(\"__builtin_int_math(2, 6, 7)\")", stl, &mut host).unwrap();
    assert_eq!(r, Atom::Int(42));
    let e = err_of("eval(\"1\")");
    assert_eq!(e.msg, "`prelude.re` missing from STL");
    let e = err_of("nothing(1)");
    assert_eq!(e.msg, "No function `nothing` found!");
}

#[test]
fn optimized_programs_run_the_same() {
    let mut host = TestHost::default();
    let mut state = State::new(no_stl()).with_code("_(5)").enable_optimizations();
    assert_eq!(state.run(&mut host).unwrap(), Atom::Int(5));
    let mut state = State::new(no_stl()).with_code("_()").enable_optimizations();
    assert_eq!(state.run(&mut host).unwrap(), Atom::Null);
}

#[test]
fn nodes_and_functions_evaluate_directly() {
    let mut host = TestHost::default();
    let mut st = State::new(no_stl());
    let lit = build_program(tokenize("5", no_path()).unwrap()).unwrap();
    assert_eq!(lit.eval(&mut st, &mut host).unwrap(), Atom::Int(5));
    let var = build_program(tokenize("missing", no_path()).unwrap()).unwrap();
    let e = var.eval(&mut st, &mut host).unwrap_err();
    assert_eq!(e.msg, "No variable named `missing` found!");
    let f = st.get_function("ifelse").unwrap();
    let e = f.call(&mut st, &[], &mut host).unwrap_err();
    assert_eq!(e.msg, "expected `3` args, found `0` args");
    let e = st.get_function("nope").unwrap_err();
    assert_eq!(e.msg, "No function `nope` found!");
    let o = Atom::new_object(vec![("k".to_string(), Atom::Int(1))]);
    assert_eq!(o.ty_id(), i64::MAX);
}

#[test]
fn plain_calls_bind_parameters_in_order() {
    assert_eq!(int_of("def(f, a, b, a), f(1, 2)"), 1);
    assert_eq!(int_of("def(g, a, b, b), g(1, 2)"), 2);
    assert_eq!(int_of("=(a, 7), def(f, a, a), f(3), a"), 7);
    assert_eq!(int_of("def(h, a, _(=(a, 4), a)), h(1)"), 4);
    assert_eq!(int_of("=(z, 5), def(k, a, b, b), k(z, z), z"), 5);
    assert_eq!(int_of("=(z, 5), def(k, a, _(=(z, 6), a)), k(z), z"), 5);
}

#[test]
fn exit_in_imported_module_stops_the_program() {
    let stl = Rc::new(vec![("m".to_string(), "exit(5)".to_string())]);
    let mut host = TestHost::default();
    assert_eq!(run("import(m), 1", stl, &mut host).unwrap(), Atom::Int(5));
}

#[test]
fn simple_programs_give_their_last_value() {
    assert_eq!(int_of("=(x, 1), =(y, x), y"), 1);
    let e = err_of("unbound");
    assert_eq!(e.error, "Name");
}

#[test]
fn conditionals_and_arithmetic_in_simple_programs() {
    assert_eq!(int_of("ifelse(__builtin_atom_eq(1, 1), 10, 20)"), 10);
    assert_eq!(int_of("=(c, false), ifelse(c, 10, 20)"), 20);
    assert_eq!(int_of("=(a, 6), __builtin_int_math(2, a, 7)"), 42);
    let e = err_of("__builtin_int_math(0, 9223372036854775807, 1)");
    assert_eq!(e.error, "Overflow");
}

#[test]
fn boolean_operators_short_circuit() {
    assert_eq!(eval_code("||(true, error(\"X\", \"y\"))").unwrap(), Atom::Bool(true));
    assert_eq!(eval_code("||(false, true)").unwrap(), Atom::Bool(true));
    assert_eq!(eval_code("&&(true, false)").unwrap(), Atom::Bool(false));
    assert_eq!(eval_code("printable(12)").unwrap().as_string().unwrap(), "12");
    assert_eq!(int_of("argc(fn(a, b, a))"), 2);
}

#[test]
fn exit_value_is_the_result() {
    assert_eq!(int_of("exit(7), 1"), 7);
    assert_eq!(int_of("=(x, 3), exit(x), =(x, 4)"), 3);
}

#[test]
fn loops_and_handlers_in_simple_programs() {
    assert_eq!(
        int_of("=(i, 0), =(s, 0), while(__builtin_atom_eq(__builtin_atom_eq(i, 3), false), _(=(s, __builtin_int_math(0, s, i)), =(i, __builtin_int_math(0, i, 1)))), s"),
        3
    );
    assert_eq!(
        int_of("=(s, 0), for_in(__builtin_list_api(4, __builtin_list_api(4, \"\", 0, 2), 0, 4), x, =(s, __builtin_int_math(0, s, x))), s"),
        6
    );
    assert_eq!(int_of("try_except(4, 5)"), 4);
    assert_eq!(int_of("type_id(true)"), 1);
}

#[test]
fn list_programs_in_simple_form() {
    assert_eq!(int_of("=(l, __builtin_list_api(4, \"ab\", 2, 9)), __builtin_list_api(2, l, 2)"), 9);
    assert_eq!(int_of("__builtin_list_api(1, __builtin_list_api(3, \"abc\", 0))"), 2);
}

#[test]
fn comparisons_in_simple_programs() {
    assert_eq!(eval_code("__builtin_atom_cmp(0, 1, 2)").unwrap(), Atom::Bool(true));
    assert_eq!(eval_code("=(a, 5), __builtin_atom_cmp(3, a, 7)").unwrap(), Atom::Bool(false));
    assert_eq!(eval_code("__builtin_atom_cmp(2, null, null)").unwrap(), Atom::Bool(true));
}

#[test]
fn shifts_and_writes_in_simple_programs() {
    assert_eq!(int_of("__builtin_int_shift(0, 1, 4)"), 16);
    assert_eq!(int_of("__builtin_int_shift(0, 4, 1)"), 8);
    assert_eq!(int_of("__builtin_int_shift(1, 32, 3)"), 4);
    assert_eq!(int_of("__builtin_int_shift(1, -8, 1)"), -4);
    assert_eq!(err_of("__builtin_int_shift(2, 1, 1)").msg, "invalid mode 2");
    let mut host = TestHost::default();
    let r = run("write(12)", no_stl(), &mut host).unwrap();
    assert_eq!(r, Atom::Null);
    assert_eq!(host.stdout, "12");
}

#[test]
fn input_value_drops_one_line_break() {
    let a = input_value(Ok("abc\n".to_string()), &[]).unwrap();
    assert_eq!(a.as_string().unwrap(), "abc");
    let a = input_value(Ok("abc".to_string()), &[]).unwrap();
    assert_eq!(a.as_string().unwrap(), "abc");
    let a = input_value(Ok("a\n\n".to_string()), &[]).unwrap();
    assert_eq!(a.as_string().unwrap(), "a\n");
    let e = input_value(Err("closed".to_string()), &[]).unwrap_err();
    assert_eq!(e.error, "Io");
    assert_eq!(e.msg, "error while reading input: closed");
}

#[test]
fn clock_value_gives_seconds_or_nanoseconds() {
    assert_eq!(clock_value(false, Some((1_700_000_000, 250)), &[]).unwrap(), Atom::Int(1_700_000_000));
    assert_eq!(clock_value(true, Some((1_700_000_000, 250)), &[]).unwrap(), Atom::Int(250));
    let e = clock_value(false, Some((u64::MAX, 0)), &[]).unwrap_err();
    assert_eq!(e.error, "Overflow");
    let e = clock_value(false, None, &[]).unwrap_err();
    assert_eq!(e.error, "Io");
    assert_eq!(e.msg, "internal time error");
}

#[test]
fn calls_of_functions_defined_earlier() {
    let mut host = TestHost::default();
    let mut state = State::new(no_stl()).with_code(
        "def(fact, n, ifelse(__builtin_atom_eq(n, 0), 1, __builtin_int_math(2, n, fact(__builtin_int_math(1, n, 1)))))",
    );
    assert_eq!(state.run(&mut host).unwrap(), Atom::Null);
    state = state.with_code("=(n, 7), =(r, fact(5)), __builtin_int_math(0, r, n)");
    assert_eq!(state.run(&mut host).unwrap(), Atom::Int(127));
    state = state.with_code("def(set_n, v, =(n, v)), =(n, 1), set_n(9), n");
    assert_eq!(state.run(&mut host).unwrap(), Atom::Int(1));
}

#[test]
fn def_binds_a_function_with_its_parameters() {
    assert_eq!(int_of("def(f, a, b, a), argc(f)"), 2);
    assert_eq!(eval_code("def(f, a, [b], a), argc(f)").unwrap(), Atom::Null);
    assert_eq!(int_of("def(f, a, b, b), f(1, 2)"), 2);
}

#[test]
fn recursive_definitions_in_one_program() {
    assert_eq!(
        int_of("def(fact, n, ifelse(__builtin_atom_eq(n, 0), 1, __builtin_int_math(2, n, fact(__builtin_int_math(1, n, 1))))), fact(6)"),
        720
    );
    assert_eq!(
        int_of("=(sq, fn(x, __builtin_int_math(2, x, x))), =(x, 3), =(y, sq(5)), __builtin_int_math(0, x, y)"),
        28
    );
    let l = eval_code("def(f, xs, __builtin_list_api(4, xs, 0, 9)), f(__builtin_list_api(4, \"\", 0, 1))").unwrap();
    assert_eq!(l.to_string(), "[9, 1]");
}
