//! The values of the language.

use crate::argument::Argument;
use crate::builtins::fn_def::FnArgument;
use crate::exception::{Exception, SyntaxError};
use crate::text::{chars_eq_str, parse_i64, parse_i64_spec, IntParse, chars_of, int_digits, nat_digits, push_chars, push_i64, push_str, push_u64, string_from_chars};
use std::rc::Rc;
use vstd::prelude::*;
use vstd::std_specs::cmp::PartialEqSpecImpl;

verus! {

/// A value.
#[derive(Debug, PartialEq)]
pub enum Atom {
    /// A 64-bit signed integer.
    Int(i64),
    /// A boolean.
    Bool(bool),
    /// A character.
    Char(char),
    /// The absence of a value.
    Null,
    /// A list of values; strings are lists of characters.
    List(List),
    /// A function.
    Function(Function),
    /// An object: named fields and a type id.
    Object(Object),
}

/// A list of values, shared between copies until one of them changes.
#[derive(Debug, PartialEq)]
pub struct List(pub Rc<Vec<Atom>>);

/// An object: its fields, sorted by name without repetitions, and its type id.
#[derive(Debug, PartialEq)]
pub struct Object {
    /// The fields, sorted by name, each name once.
    pub data: Rc<Vec<(String, Atom)>>,
    /// The type id.
    pub ty_id: i64,
}

/// A function value. Copies share the same definition.
#[derive(Debug)]
pub struct Function(pub Rc<FunctionInner>);

/// The definition of a function.
#[derive(Debug)]
pub struct FunctionInner {
    /// The documentation text.
    pub doc: String,
    /// The number of arguments it takes, or `None` when any number is accepted.
    pub argc: Option<usize>,
    /// What calling it does.
    pub body: FunctionBody,
}

/// What calling a function does.
#[derive(Debug)]
pub enum FunctionBody {
    /// Runs the builtin function at the given index of the builtin table
    /// (see [`crate::builtins::builtin_names`]).
    Builtin(usize),
    /// Runs a function defined in the language (`def` or `fn`): binds the
    /// parameters, then evaluates the body in a new scope.
    Defined {
        /// The parameters.
        params: Vec<FnArgument>,
        /// The body.
        body: Argument,
    },
    /// Evaluates the wrapped argument in the scope of the caller (a lazy argument).
    Lazy(Argument),
    /// Builds an object of a type defined by `type` from its field values.
    Constructor {
        /// The field names, in declaration order.
        fields: Vec<String>,
        /// The type id of the objects it builds.
        ty_id: i64,
    },
    /// Calls another constructor, then sets a field of the object it built
    /// (a method added by `impl`, or a default added by `default_value`).
    WithField {
        /// The constructor called first.
        inner: Function,
        /// The field to set.
        field: String,
        /// Its value.
        value: Atom,
    },
}

impl Clone for List {
    fn clone(&self) -> (r: Self)
        ensures
            r == *self,
    {
        List(self.0.clone())
    }
}

impl Clone for Object {
    fn clone(&self) -> (r: Self)
        ensures
            r == *self,
    {
        Object { data: self.data.clone(), ty_id: self.ty_id }
    }
}

impl Clone for Function {
    fn clone(&self) -> (r: Self)
        ensures
            r == *self,
    {
        Function(self.0.clone())
    }
}

/// Functions never compare equal, not even to themselves.
impl PartialEq for Function {
    fn eq(&self, other: &Self) -> (r: bool) {
        false
    }
}

impl PartialEqSpecImpl for Function {
    open spec fn obeys_eq_spec() -> bool {
        true
    }

    open spec fn eq_spec(&self, other: &Self) -> bool {
        false
    }
}

impl Clone for Atom {
    fn clone(&self) -> (r: Self)
        ensures
            r == *self,
    {
        match self {
            Atom::Int(i) => Atom::Int(*i),
            Atom::Bool(b) => Atom::Bool(*b),
            Atom::Char(c) => Atom::Char(*c),
            Atom::Null => Atom::Null,
            Atom::List(l) => Atom::List(l.clone()),
            Atom::Function(f) => Atom::Function(f.clone()),
            Atom::Object(o) => Atom::Object(o.clone()),
        }
    }
}

} // verus!

verus! {

/// The mathematical model of a value: lists and objects as sequences.
pub enum AtomV {
    /// An integer.
    Int(i64),
    /// A boolean.
    Bool(bool),
    /// A character.
    Char(char),
    /// The absence of a value.
    Null,
    /// A list.
    List(Seq<AtomV>),
    /// A function, by its definition.
    Function(FnV),
    /// An object: its fields (name and value), sorted by name, and its type id.
    Object(Seq<(Seq<char>, AtomV)>, i64),
}

/// The model of a function: its documentation, argument count and what
/// calling it does.
pub struct FnV {
    /// The documentation text.
    pub doc: Seq<char>,
    /// The number of arguments it takes, `None` for any number.
    pub argc: Option<usize>,
    /// What calling it does.
    pub body: FnBodyV,
}

/// The model of what calling a function does.
pub enum FnBodyV {
    /// The builtin at this index of the builtin table.
    Builtin(usize),
    /// A function defined in the language: its parameters (name, whether
    /// variadic, whether lazy) and its body.
    Defined(Seq<(Seq<char>, bool, bool)>, Box<crate::argument::ArgV>),
    /// A lazy argument, a constructor or a constructor with a field set.
    Other,
}

/// The model of each parameter of a defined function: its name, whether it
/// is variadic and whether it is lazy.
pub open spec fn params_view(params: Seq<FnArgument>) -> Seq<(Seq<char>, bool, bool)> {
    Seq::new(params.len(), |j: int| (params[j].name@, params[j].variadic, params[j].lazy))
}

/// The model of a function (see [`FnV`]).
pub open spec fn fn_view(f: Function) -> FnV {
    atom_view(Atom::Function(f))->Function_0
}

/// The model of a value.
pub open spec fn atom_view(a: Atom) -> AtomV
    decreases a, 0nat,
{
    match a {
        Atom::Int(i) => AtomV::Int(i),
        Atom::Bool(b) => AtomV::Bool(b),
        Atom::Char(c) => AtomV::Char(c),
        Atom::Null => AtomV::Null,
        Atom::List(l) => AtomV::List(atoms_view(l.0@, l.0@.len())),
        Atom::Function(f) => AtomV::Function(
            FnV {
                doc: f.0.doc@,
                argc: f.0.argc,
                body: match f.0.body {
                    FunctionBody::Builtin(k) => FnBodyV::Builtin(k),
                    FunctionBody::Defined { params, body } => FnBodyV::Defined(
                        params_view(params@),
                        Box::new(crate::argument::arg_view(body)),
                    ),
                    _ => FnBodyV::Other,
                },
            },
        ),
        Atom::Object(o) => AtomV::Object(entries_view(o.data@, o.data@.len()), o.ty_id),
    }
}

/// The models of the first `n` values of `s`.
pub open spec fn atoms_view(s: Seq<Atom>, n: nat) -> Seq<AtomV>
    decreases s, n,
{
    if n == 0 || n > s.len() {
        Seq::empty()
    } else {
        atoms_view(s, (n - 1) as nat).push(atom_view(s[n - 1]))
    }
}

/// The models of the first `n` fields of an object.
pub open spec fn entries_view(s: Seq<(String, Atom)>, n: nat) -> Seq<(Seq<char>, AtomV)>
    decreases s, n,
{
    if n == 0 || n > s.len() {
        Seq::empty()
    } else {
        entries_view(s, (n - 1) as nat).push((s[n - 1].0@, atom_view(s[n - 1].1)))
    }
}

impl View for Atom {
    type V = AtomV;

    open spec fn view(&self) -> AtomV {
        atom_view(*self)
    }
}

} // verus!

verus! {

/// The number of nodes of a value.
pub open spec fn atom_size(v: AtomV) -> nat
    decreases v, 0nat,
{
    match v {
        AtomV::List(s) => 1 + atoms_size(s, s.len()),
        AtomV::Object(e, _) => 1 + fields_size(e, e.len()),
        _ => 1,
    }
}

/// The number of nodes of the first `n` values of `s`.
pub open spec fn atoms_size(s: Seq<AtomV>, n: nat) -> nat
    decreases s, n,
{
    if n == 0 || n > s.len() {
        0
    } else {
        atoms_size(s, (n - 1) as nat) + atom_size(s[n - 1])
    }
}

/// The number of nodes of the values of the first `n` fields of `e`.
pub open spec fn fields_size(e: Seq<(Seq<char>, AtomV)>, n: nat) -> nat
    decreases e, n,
{
    if n == 0 || n > e.len() {
        0
    } else {
        fields_size(e, (n - 1) as nat) + atom_size(e[n - 1].1)
    }
}

/// Each value of a sequence is smaller than the whole sequence.
pub proof fn lemma_atoms_size(s: Seq<AtomV>, n: nat, k: int)
    requires
        n <= s.len(),
        0 <= k < n,
    ensures
        atom_size(s[k]) <= atoms_size(s, n),
    decreases n,
{
    if k < n - 1 {
        lemma_atoms_size(s, (n - 1) as nat, k);
    }
}

/// Each field value of an object is smaller than all its fields.
pub proof fn lemma_fields_size(e: Seq<(Seq<char>, AtomV)>, n: nat, k: int)
    requires
        n <= e.len(),
        0 <= k < n,
    ensures
        atom_size(e[k].1) <= fields_size(e, n),
    decreases n,
{
    if k < n - 1 {
        lemma_fields_size(e, (n - 1) as nat, k);
    }
}

/// The models of a sequence with an element inserted.
pub proof fn lemma_atoms_view_insert(s: Seq<Atom>, i: int, a: Atom)
    requires
        0 <= i <= s.len(),
    ensures
        atoms_view(s.insert(i, a), s.insert(i, a).len()) == atoms_view(s, s.len()).insert(i, a@),
{
    lemma_atoms_view(s, s.len());
    lemma_atoms_view(s.insert(i, a), s.insert(i, a).len());
    assert(atoms_view(s.insert(i, a), s.insert(i, a).len()) =~= atoms_view(s, s.len()).insert(i, a@));
}

/// The models of a sequence with an element removed.
pub proof fn lemma_atoms_view_remove(s: Seq<Atom>, i: int)
    requires
        0 <= i < s.len(),
    ensures
        atoms_view(s.remove(i), s.remove(i).len()) == atoms_view(s, s.len()).remove(i),
{
    lemma_atoms_view(s, s.len());
    lemma_atoms_view(s.remove(i), s.remove(i).len());
    assert(atoms_view(s.remove(i), s.remove(i).len()) =~= atoms_view(s, s.len()).remove(i));
}

/// `atoms_view` gives one model per value, in order.
pub proof fn lemma_atoms_view(s: Seq<Atom>, n: nat)
    requires
        n <= s.len(),
    ensures
        atoms_view(s, n).len() == n,
        forall|k: int| 0 <= k < n ==> #[trigger] atoms_view(s, n)[k] == atom_view(s[k]),
    decreases n,
{
    if n > 0 {
        lemma_atoms_view(s, (n - 1) as nat);
    }
}

/// `entries_view` gives one model per field, in order.
pub proof fn lemma_entries_view(s: Seq<(String, Atom)>, n: nat)
    requires
        n <= s.len(),
    ensures
        entries_view(s, n).len() == n,
        forall|k: int|
            0 <= k < n ==> #[trigger] entries_view(s, n)[k] == (s[k].0@, atom_view(s[k].1)),
    decreases n,
{
    if n > 0 {
        lemma_entries_view(s, (n - 1) as nat);
    }
}

/// The type id of integers.
pub const INT_TY_ID: i64 = 0;

/// The type id of booleans.
pub const BOOL_TY_ID: i64 = 1;

/// The type id of characters.
pub const CHAR_TY_ID: i64 = 2;

/// The type id of `null`.
pub const NULL_TY_ID: i64 = 3;

/// The type id of lists.
pub const LIST_TY_ID: i64 = 4;

/// The type id of functions.
pub const FUNCTION_TY_ID: i64 = 5;

/// The smallest type id of an object type.
pub const MIN_OBJECT_TY_ID: i64 = 6;

/// Whether every value of the sequence is a character.
pub open spec fn all_chars(s: Seq<AtomV>) -> bool {
    forall|i: int| 0 <= i < s.len() ==> #[trigger] s[i] is Char
}

/// The characters of a sequence of character values.
pub open spec fn chars_of_atoms(s: Seq<AtomV>) -> Seq<char> {
    Seq::new(s.len(), |i: int| s[i]->Char_0)
}

/// The text of a value that is a list of characters, or `None` for any other value.
pub open spec fn as_string_spec(v: AtomV) -> Option<Seq<char>> {
    match v {
        AtomV::List(s) => if all_chars(s) {
            Some(chars_of_atoms(s))
        } else {
            None
        },
        _ => None,
    }
}

/// The argument count of a function as displayed: the number, or `_` for any number.
pub open spec fn argc_text(argc: Option<usize>) -> Seq<char> {
    match argc {
        Some(n) => nat_digits(n as nat),
        None => seq!['_'],
    }
}

/// How a value is displayed. A list of characters shows as its text; other lists
/// as `[a, b]`; objects as `{field: value, ...}` in field order; functions as
/// `<function>(argc)`.
pub open spec fn display_text(v: AtomV) -> Seq<char>
    decreases v, 0nat,
{
    match as_string_spec(v) {
        Some(s) => s,
        None => match v {
            AtomV::Int(i) => int_digits(i as int),
            AtomV::Bool(b) => if b {
                "true"@
            } else {
                "false"@
            },
            AtomV::Char(c) => seq![c],
            AtomV::Null => "null"@,
            AtomV::List(s) => seq!['['] + join_text(s, s.len()) + seq![']'],
            AtomV::Function(f) => "<function>("@ + argc_text(f.argc) + seq![')'],
            AtomV::Object(e, _) => seq!['{'] + fields_text(e, e.len()) + seq!['}'],
        },
    }
}

/// The display texts of the first `n` values of `s`, separated by `, `.
pub open spec fn join_text(s: Seq<AtomV>, n: nat) -> Seq<char>
    decreases s, n,
{
    if n == 0 || n > s.len() {
        Seq::empty()
    } else if n == 1 {
        display_text(s[0])
    } else {
        join_text(s, (n - 1) as nat) + ", "@ + display_text(s[n - 1])
    }
}

/// The first `n` fields of an object as `name: value`, separated by `, `.
pub open spec fn fields_text(e: Seq<(Seq<char>, AtomV)>, n: nat) -> Seq<char>
    decreases e, n,
{
    if n == 0 || n > e.len() {
        Seq::empty()
    } else if n == 1 {
        e[0].0 + ": "@ + display_text(e[0].1)
    } else {
        fields_text(e, (n - 1) as nat) + ", "@ + e[n - 1].0 + ": "@ + display_text(e[n - 1].1)
    }
}

/// How a value is written in source code: strings in double quotes, characters
/// in single quotes, anything else as displayed.
pub open spec fn stringify_text(v: AtomV) -> Seq<char> {
    match as_string_spec(v) {
        Some(s) => seq!['"'] + s + seq!['"'],
        None => match v {
            AtomV::Char(c) => seq!['\'', c, '\''],
            _ => display_text(v),
        },
    }
}

/// The display text of the first `k` values does not depend on the values
/// after them.
proof fn lemma_join_text_prefix(s: Seq<AtomV>, x: AtomV, k: nat)
    requires
        k <= s.len(),
    ensures
        join_text(s.push(x), k) == join_text(s, k),
    decreases k,
{
    if k > 1 {
        lemma_join_text_prefix(s, x, (k - 1) as nat);
        assert(s.push(x)[k - 1] == s[k - 1]);
    } else if k == 1 {
        assert(s.push(x)[0] == s[0]);
    }
}

/// How values other than integers are displayed: `true` and `false`, `null`,
/// a character as itself, a list of characters as its text, and any other
/// list in square brackets with its elements' texts separated by `, ` (one
/// element shows as `[x]`, and one more element adds `, ` and its text before
/// the closing bracket).
pub proof fn law_display_shapes(b: bool, c: char, s: Seq<AtomV>, x: AtomV)
    ensures
        display_text(AtomV::Bool(b)) == if b { "true"@ } else { "false"@ },
        display_text(AtomV::Null) == "null"@,
        display_text(AtomV::Char(c)) == seq![c],
        all_chars(s) ==> display_text(AtomV::List(s)) == Seq::new(s.len(), |i: int| s[i]->Char_0),
        !(x is Char) ==> display_text(AtomV::List(seq![x])) == seq!['['] + display_text(x) + seq![']'],
        s.len() > 0 && !all_chars(s) ==> display_text(AtomV::List(s.push(x))) == display_text(AtomV::List(s)).drop_last()
            + ", "@ + display_text(x) + seq![']'],
{
    if !(x is Char) {
        assert(!all_chars(seq![x])) by {
            assert(seq![x][0] == x);
        }
        assert(seq![x][0] == x);
    }
    if s.len() > 0 && !all_chars(s) {
        let t = s.push(x);
        assert(!all_chars(t)) by {
            let i = choose|i: int| 0 <= i < s.len() && !(s[i] is Char);
            assert(t[i] == s[i]);
        }
        lemma_join_text_prefix(s, x, s.len());
        assert(t[t.len() - 1] == x);
        let inner = join_text(s, s.len());
        assert((seq!['['] + inner + seq![']']).drop_last() =~= seq!['['] + inner);
        assert(display_text(AtomV::List(t)) =~= seq!['['] + inner + ", "@ + display_text(x) + seq![']']);
    }
}

/// An integer is displayed as its decimal representation, with a leading `-`
/// exactly when it is negative; different integers display differently.
pub proof fn law_int_display(i: i64, j: i64)
    ensures
        display_text(AtomV::Int(i)) == int_digits(i as int),
        display_text(AtomV::Int(i))[0] == '-' <==> i < 0,
        display_text(AtomV::Int(i)) == display_text(AtomV::Int(j)) ==> i == j,
{
    crate::text::law_int_digits_sign_and_injective(i as int, j as int);
}

/// The type id of a value.
pub open spec fn ty_id_spec(v: AtomV) -> i64 {
    match v {
        AtomV::Int(_) => INT_TY_ID,
        AtomV::Bool(_) => BOOL_TY_ID,
        AtomV::Char(_) => CHAR_TY_ID,
        AtomV::Null => NULL_TY_ID,
        AtomV::List(_) => LIST_TY_ID,
        AtomV::Function(_) => FUNCTION_TY_ID,
        AtomV::Object(_, t) => t,
    }
}

impl List {
    /// Constructs a list holding the given values.
    pub fn new(v: Vec<Atom>) -> (l: List)
        ensures
            l.0@ == v@,
    {
        List(Rc::new(v))
    }

    /// The number of values in the list.
    pub fn len(&self) -> (n: usize)
        ensures
            n == self.0@.len(),
    {
        self.0.len()
    }

    /// The value at `i`.
    pub fn get(&self, i: usize) -> (a: &Atom)
        requires
            i < self.0@.len(),
        ensures
            *a == self.0@[i as int],
    {
        &self.0[i]
    }

    /// A copy of the values of the list.
    pub fn to_vec(&self) -> (v: Vec<Atom>)
        ensures
            v@ == self.0@,
    {
        let mut v: Vec<Atom> = Vec::new();
        let mut i: usize = 0;
        while i < self.0.len()
            invariant
                0 <= i <= self.0@.len(),
                v@ == self.0@.take(i as int),
            decreases self.0@.len() - i,
        {
            v.push(self.0[i].clone());
            i = i + 1;
            assert(v@ =~= self.0@.take(i as int));
        }
        assert(self.0@.take(self.0@.len() as int) =~= self.0@);
        v
    }
}

impl Function {
    /// Constructs a function from its documentation, argument count and body.
    pub fn new(doc: String, argc: Option<usize>, body: FunctionBody) -> (f: Function)
        ensures
            f.0.doc == doc,
            f.0.argc == argc,
            f.0.body == body,
    {
        Function(Rc::new(FunctionInner { doc, argc, body }))
    }

    /// The documentation text.
    pub fn doc(&self) -> (d: &str)
        ensures
            d@ == self.0.doc@,
    {
        self.0.doc.as_str()
    }

    /// The number of arguments it takes, or `None` for any number.
    pub fn argc(&self) -> (n: Option<usize>)
        ensures
            n == self.0.argc,
    {
        self.0.argc
    }

    /// What calling it does.
    pub fn body(&self) -> (b: &FunctionBody)
        ensures
            *b == self.0.body,
    {
        &self.0.body
    }
}

impl Atom {
    /// The type id of this value (see [`ty_id_spec`]).
    pub fn ty_id(&self) -> (t: i64)
        ensures
            t == ty_id_spec(self@),
    {
        match self {
            Atom::Int(_) => INT_TY_ID,
            Atom::Bool(_) => BOOL_TY_ID,
            Atom::Char(_) => CHAR_TY_ID,
            Atom::Null => NULL_TY_ID,
            Atom::List(_) => LIST_TY_ID,
            Atom::Function(_) => FUNCTION_TY_ID,
            Atom::Object(o) => o.ty_id,
        }
    }

    /// Constructs a new `List`.
    pub fn new_list(v: Vec<Atom>) -> (a: Atom)
        ensures
            a is List,
            a->List_0.0@ == v@,
    {
        Atom::List(List::new(v))
    }

    /// Constructs an object with the type id `i64::MAX` directly: for
    /// (singleton) objects added from outside the language.
    pub fn new_object(data: Vec<(String, Atom)>) -> (a: Atom)
        ensures
            a matches Atom::Object(o) && o.ty_id == i64::MAX && crate::object::keys_sorted(o.data@)
                && forall|k: Seq<char>|
                #[trigger] crate::object::field_lookup(o.data@, k) == crate::object::last_value(
                    data@,
                    k,
                ),
    {
        Atom::Object(Object::new(data, 0x7fff_ffff_ffff_ffff))
    }

    /// Constructs a new string, represented as a `List` of `Char`s.
    pub fn new_string(s: &str) -> (a: Atom)
        ensures
            as_string_spec(a@) == Some(s@),
            a@ == string_view(s@),
    {
        let cs = crate::text::chars_of(s);
        Atom::new_string_chars(&cs)
    }

    /// Constructs a new string from its characters.
    pub fn new_string_chars(cs: &Vec<char>) -> (a: Atom)
        ensures
            as_string_spec(a@) == Some(cs@),
            a@ == string_view(cs@),
            a is List,
            a->List_0.0@.len() == cs@.len(),
            forall|k: int| 0 <= k < cs@.len() ==> #[trigger] a->List_0.0@[k] == Atom::Char(cs@[k]),
    {
        let mut v: Vec<Atom> = Vec::new();
        let mut i: usize = 0;
        while i < cs.len()
            invariant
                0 <= i <= cs@.len(),
                v@.len() == i,
                forall|k: int| 0 <= k < i ==> #[trigger] v@[k] == Atom::Char(cs@[k]),
            decreases cs@.len() - i,
        {
            let c: char = crate::text::char_at(cs, i);
            v.push(Atom::Char(c));
            i = i + 1;
        }
        let a = Atom::new_list(v);
        proof {
            lemma_atoms_view(v@, v@.len());
            let s = atoms_view(v@, v@.len());
            assert(all_chars(s));
            assert(chars_of_atoms(s) =~= cs@);
            assert forall|k: int| 0 <= k < s.len() implies s[k] == AtomV::Char(cs@[k]) by {
                assert(v@[k] == Atom::Char(cs@[k]));
            }
            let sv = Seq::new(cs@.len(), |k: int| char_atom(cs@[k]));
            assert(string_view(cs@) == AtomV::List(sv));
            assert(sv.len() == cs@.len());
            assert(s.len() == cs@.len());
            assert forall|k: int| 0 <= k < s.len() implies s[k] == sv[k] by {
                assert(s[k] == AtomV::Char(cs@[k]));
            }
            assert(s =~= sv);
        }
        a
    }

    /// If this is a list in which all elements are characters, their text.
    pub fn as_chars(&self) -> (r: Option<Vec<char>>)
        ensures
            match r {
                Some(v) => as_string_spec(self@) == Some(v@),
                None => as_string_spec(self@).is_none(),
            },
    {
        match self {
            Atom::List(l) => {
                let mut v: Vec<char> = Vec::new();
                let mut i: usize = 0;
                let ghost s = atoms_view(l.0@, l.0@.len());
                proof {
                    lemma_atoms_view(l.0@, l.0@.len());
                }
                while i < l.0.len()
                    invariant
                        *self == Atom::List(*l),
                        0 <= i <= l.0@.len(),
                        s == atoms_view(l.0@, l.0@.len()),
                        s.len() == l.0@.len(),
                        forall|k: int| 0 <= k < s.len() ==> #[trigger] s[k] == atom_view(l.0@[k]),
                        v@.len() == i,
                        forall|k: int| 0 <= k < i ==> #[trigger] s[k] == AtomV::Char(v@[k]),
                    decreases l.0@.len() - i,
                {
                    match l.get(i) {
                        Atom::Char(c) => {
                            let c: char = *c;
                            assert(s[i as int] == AtomV::Char(c));
                            v.push(c);
                        },
                        _ => {
                            assert(!(s[i as int] is Char));
                            assert(!all_chars(s));
                            return None;
                        },
                    }
                    i = i + 1;
                }
                assert(all_chars(s));
                assert(chars_of_atoms(s) =~= v@);
                Some(v)
            },
            _ => None,
        }
    }

    /// If this is a list in which all elements are characters, concatenates
    /// them into a `String`; otherwise `None`.
    pub fn as_string(&self) -> (r: Option<String>)
        ensures
            match r {
                Some(s) => as_string_spec(self@) == Some(s@),
                None => as_string_spec(self@).is_none(),
            },
    {
        match self.as_chars() {
            Some(v) => Some(string_from_chars(&v)),
            None => None,
        }
    }

    /// The integer, if this is one.
    pub fn as_int(&self) -> (r: Option<i64>)
        ensures
            r == (match *self {
                Atom::Int(i) => Some(i),
                _ => None,
            }),
    {
        match self {
            Atom::Int(v) => Some(*v),
            _ => None,
        }
    }

    /// The boolean, if this is one.
    pub fn bool(&self) -> (r: Option<bool>)
        ensures
            r == (match *self {
                Atom::Bool(b) => Some(b),
                _ => None,
            }),
    {
        match self {
            Atom::Bool(v) => Some(*v),
            _ => None,
        }
    }

    /// The character, if this is one.
    pub fn char(&self) -> (r: Option<char>)
        ensures
            r == (match *self {
                Atom::Char(c) => Some(c),
                _ => None,
            }),
    {
        match self {
            Atom::Char(v) => Some(*v),
            _ => None,
        }
    }

    /// The list, if this is one.
    pub fn list(&self) -> (r: Option<List>)
        ensures
            r == (match *self {
                Atom::List(l) => Some(l),
                _ => None,
            }),
    {
        match self {
            Atom::List(v) => Some(v.clone()),
            _ => None,
        }
    }

    /// The function, if this is one.
    pub fn function(&self) -> (r: Option<Function>)
        ensures
            r == (match *self {
                Atom::Function(f) => Some(f),
                _ => None,
            }),
    {
        match self {
            Atom::Function(v) => Some(v.clone()),
            _ => None,
        }
    }

    /// The object, if this is one.
    pub fn object(&self) -> (r: Option<Object>)
        ensures
            r == (match *self {
                Atom::Object(o) => Some(o),
                _ => None,
            }),
    {
        match self {
            Atom::Object(v) => Some(v.clone()),
            _ => None,
        }
    }
}

} // verus!

verus! {

/// Appends the display text of `a` (see [`display_text`]) to `out`.
pub fn push_display(out: &mut Vec<char>, a: &Atom)
    ensures
        final(out)@ == old(out)@ + display_text(a@),
    decreases atom_size(a@),
{
    proof {
        reveal_strlit("true");
        reveal_strlit("false");
        reveal_strlit("null");
        reveal_strlit("<function>(");
        reveal_strlit(", ");
        reveal_strlit(": ");
    }
    match a.as_chars() {
        Some(v) => {
            push_chars(out, &v);
            return;
        },
        None => {},
    }
    let ghost start = out@;
    match a {
        Atom::Int(i) => push_i64(out, *i),
        Atom::Bool(b) => {
            if *b {
                push_str(out, "true");
            } else {
                push_str(out, "false");
            }
        },
        Atom::Char(c) => {
            out.push(*c);
            assert(out@ =~= start + display_text(a@));
        },
        Atom::Null => push_str(out, "null"),
        Atom::List(l) => {
            let ghost s = atoms_view(l.0@, l.0@.len());
            proof {
                lemma_atoms_view(l.0@, l.0@.len());
            }
            out.push('[');
            let mut i: usize = 0;
            while i < l.len()
                invariant
                    *a == Atom::List(*l),
                    s == atoms_view(l.0@, l.0@.len()),
                    s.len() == l.0@.len(),
                    forall|k: int| 0 <= k < s.len() ==> #[trigger] s[k] == atom_view(l.0@[k]),
                    0 <= i <= l.0@.len(),
                    out@ == start + seq!['['] + join_text(s, i as nat),
                decreases l.0@.len() - i,
            {
                if i > 0 {
                    push_str(out, ", ");
                }
                proof {
                    lemma_atoms_size(s, s.len(), i as int);
                }
                push_display(out, l.get(i));
                i = i + 1;
                assert(out@ =~= start + seq!['['] + join_text(s, i as nat));
            }
            out.push(']');
            assert(out@ =~= start + display_text(a@));
        },
        Atom::Function(f) => {
            push_str(out, "<function>(");
            match f.argc() {
                Some(n) => push_u64(out, n as u64),
                None => out.push('_'),
            }
            out.push(')');
            assert(out@ =~= start + display_text(a@));
        },
        Atom::Object(o) => {
            let ghost e = entries_view(o.data@, o.data@.len());
            proof {
                lemma_entries_view(o.data@, o.data@.len());
            }
            out.push('{');
            let mut i: usize = 0;
            while i < o.data.len()
                invariant
                    *a == Atom::Object(*o),
                    e == entries_view(o.data@, o.data@.len()),
                    e.len() == o.data@.len(),
                    forall|k: int|
                        0 <= k < e.len() ==> #[trigger] e[k] == (o.data@[k].0@, atom_view(
                            o.data@[k].1,
                        )),
                    0 <= i <= o.data@.len(),
                    out@ == start + seq!['{'] + fields_text(e, i as nat),
                decreases o.data@.len() - i,
            {
                if i > 0 {
                    push_str(out, ", ");
                }
                let kc = chars_of(o.data[i].0.as_str());
                push_chars(out, &kc);
                push_str(out, ": ");
                proof {
                    lemma_fields_size(e, e.len(), i as int);
                }
                push_display(out, &o.data[i].1);
                i = i + 1;
                assert(out@ =~= start + seq!['{'] + fields_text(e, i as nat));
            }
            out.push('}');
            assert(out@ =~= start + display_text(a@));
        },
    }
}

impl Atom {
    /// The display text of this value (see [`display_text`]).
    pub fn to_string(&self) -> (s: String)
        ensures
            s@ == display_text(self@),
    {
        let mut v: Vec<char> = Vec::new();
        push_display(&mut v, self);
        assert(v@ =~= display_text(self@));
        string_from_chars(&v)
    }

    /// How this value is written in source code (see [`stringify_text`]).
    pub fn stringify(&self) -> (s: String)
        ensures
            s@ == stringify_text(self@),
    {
        let mut v: Vec<char> = Vec::new();
        match self.as_chars() {
            Some(cs) => {
                v.push('"');
                push_chars(&mut v, &cs);
                v.push('"');
            },
            None => match self {
                Atom::Char(c) => {
                    v.push('\'');
                    v.push(*c);
                    v.push('\'');
                },
                _ => push_display(&mut v, self),
            },
        }
        assert(v@ =~= stringify_text(self@));
        string_from_chars(&v)
    }
}

} // verus!

verus! {

/// The model of a character value.
pub open spec fn char_atom(c: char) -> AtomV {
    AtomV::Char(c)
}

/// The model of a string value: a list of its characters.
pub open spec fn string_view(s: Seq<char>) -> AtomV {
    AtomV::List(Seq::new(s.len(), |k: int| char_atom(s[k])))
}

/// The message of the error raised for an integer literal that does not fit in 64 bits.
pub open spec fn overflow_msg(s: Seq<char>) -> Seq<char> {
    "integer "@ + s + " cannot be parsed as an integer due to overflow"@
}

/// What a word of source code stands for: `true`, `false` and `null`, a
/// decimal integer, or nothing (a name). `Err` when it is an integer that does
/// not fit in 64 bits.
pub open spec fn word_atom(s: Seq<char>) -> Result<Option<AtomV>, ()> {
    if s == "true"@ {
        Ok(Some(AtomV::Bool(true)))
    } else if s == "false"@ {
        Ok(Some(AtomV::Bool(false)))
    } else if s == "null"@ {
        Ok(Some(AtomV::Null))
    } else {
        match parse_i64_spec(s) {
            IntParse::Value(i) => Ok(Some(AtomV::Int(i))),
            IntParse::PosOverflow => Err(()),
            IntParse::NegOverflow => Err(()),
            _ => Ok(None),
        }
    }
}

impl Atom {
    /// The value a word of source code stands for (see [`word_atom`]); a
    /// syntax error for an integer literal that does not fit in 64 bits.
    pub fn try_from_chars(value: &Vec<char>) -> (r: Result<Option<Atom>, Exception>)
        ensures
            match r {
                Ok(Some(a)) => word_atom(value@) == Ok::<Option<AtomV>, ()>(Some(a@)),
                Ok(None) => word_atom(value@) == Ok::<Option<AtomV>, ()>(None),
                Err(e) => {
                    &&& word_atom(value@) is Err
                    &&& e.error@ == SyntaxError@
                    &&& e.msg@ == overflow_msg(value@)
                    &&& e.backtrace.is_none()
                },
            },
    {
        proof {
            reveal_strlit("true");
            reveal_strlit("false");
            reveal_strlit("null");
            reveal_strlit("integer ");
            reveal_strlit(" cannot be parsed as an integer due to overflow");
            reveal_strlit("Syntax");
        }
        if chars_eq_str(value, "true") {
            return Ok(Some(Atom::Bool(true)));
        }
        if chars_eq_str(value, "false") {
            return Ok(Some(Atom::Bool(false)));
        }
        if chars_eq_str(value, "null") {
            return Ok(Some(Atom::Null));
        }
        match parse_i64(value) {
            IntParse::Value(i) => Ok(Some(Atom::Int(i))),
            IntParse::PosOverflow | IntParse::NegOverflow => {
                let mut m: Vec<char> = Vec::new();
                push_str(&mut m, "integer ");
                push_chars(&mut m, value);
                push_str(&mut m, " cannot be parsed as an integer due to overflow");
                assert(m@ =~= overflow_msg(value@));
                let ms = string_from_chars(&m);
                Err(Exception::unspanned(SyntaxError, ms.as_str()))
            },
            _ => Ok(None),
        }
    }

    /// The value a word of source code stands for (see [`word_atom`]); a
    /// syntax error for an integer literal that does not fit in 64 bits.
    pub fn try_from_str(value: &str) -> (r: Result<Option<Atom>, Exception>)
        ensures
            match r {
                Ok(Some(a)) => word_atom(value@) == Ok::<Option<AtomV>, ()>(Some(a@)),
                Ok(None) => word_atom(value@) == Ok::<Option<AtomV>, ()>(None),
                Err(e) => {
                    &&& word_atom(value@) is Err
                    &&& e.error@ == SyntaxError@
                    &&& e.msg@ == overflow_msg(value@)
                    &&& e.backtrace.is_none()
                },
            },
    {
        let v = chars_of(value);
        Atom::try_from_chars(&v)
    }
}

} // verus!
