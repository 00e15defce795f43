//! Variable storage with nested scopes.
//!
//! Every name maps either to a global value or to a stack of local values,
//! each tagged with the scope it was assigned in. Only the innermost local
//! value is visible; ending a scope drops the values assigned in it.

use crate::atom::{Atom, FunctionBody};
use crate::builtins::{all_functions, builtin_argcs, builtin_names};
use vstd::prelude::*;

verus! {

/// What a name is bound to.
#[derive(Debug)]
pub enum StoredValue {
    /// A global value, visible in every scope.
    Global(Atom),
    /// Local values, each with the scope it was assigned in, innermost last.
    Locals(Vec<(usize, Atom)>),
}

/// The model of what a name is bound to.
pub enum StoredV {
    /// A global value.
    Global(Atom),
    /// Local values with their scopes, innermost last.
    Locals(Seq<(usize, Atom)>),
}

impl View for StoredValue {
    type V = StoredV;

    open spec fn view(&self) -> StoredV {
        match self {
            StoredValue::Global(a) => StoredV::Global(*a),
            StoredValue::Locals(v) => StoredV::Locals(v@),
        }
    }
}

/// The value a binding makes visible: the global value, or the innermost local one.
pub open spec fn stored_atom(v: StoredV) -> Option<Atom> {
    match v {
        StoredV::Global(a) => Some(a),
        StoredV::Locals(s) => if s.len() > 0 {
            Some(s.last().1)
        } else {
            None
        },
    }
}

/// Assigning `atom` in `scope`: a global is overwritten; a local assigned in
/// the same scope is overwritten, otherwise a new innermost local is added.
pub open spec fn stored_update(v: StoredV, atom: Atom, scope: usize) -> StoredV {
    match v {
        StoredV::Global(_) => StoredV::Global(atom),
        StoredV::Locals(s) => if s.len() > 0 && s.last().0 == scope {
            StoredV::Locals(s.update(s.len() - 1, (scope, atom)))
        } else {
            StoredV::Locals(s.push((scope, atom)))
        },
    }
}

/// Ending `scope`: drops the innermost local if it was assigned in that scope.
pub open spec fn stored_reduce(v: StoredV, scope: usize) -> StoredV {
    match v {
        StoredV::Locals(s) => if s.len() > 0 && s.last().0 == scope {
            StoredV::Locals(s.drop_last())
        } else {
            v
        },
        _ => v,
    }
}

impl StoredValue {
    /// The value this binding makes visible (see [`stored_atom`]).
    pub fn as_atom(&self) -> (r: Option<&Atom>)
        ensures
            match r {
                Some(a) => stored_atom(self@) == Some(*a),
                None => stored_atom(self@).is_none(),
            },
    {
        match self {
            StoredValue::Global(a) => Some(a),
            StoredValue::Locals(v) => {
                if v.len() > 0 {
                    Some(&v[v.len() - 1].1)
                } else {
                    None
                }
            },
        }
    }

    /// Assigns `atom` in `scope` (see [`stored_update`]).
    pub fn update(&mut self, atom: Atom, scope: usize)
        ensures
            final(self)@ == stored_update(old(self)@, atom, scope),
    {
        match self {
            StoredValue::Global(a) => {
                *a = atom;
            },
            StoredValue::Locals(vec) => {
                let n = vec.len();
                if n > 0 && vec[n - 1].0 == scope {
                    vec.set(n - 1, (scope, atom));
                } else {
                    vec.push((scope, atom));
                }
            },
        }
    }

    /// Ends `scope` for this binding (see [`stored_reduce`]).
    pub fn reduce_by_scope(&mut self, scope: usize)
        ensures
            final(self)@ == stored_reduce(old(self)@, scope),
    {
        match self {
            StoredValue::Locals(vec) => {
                let n = vec.len();
                if n > 0 && vec[n - 1].0 == scope {
                    let _ = vec.pop();
                }
            },
            _ => {},
        }
    }
}

/// The bindings of a list of named entries, later entries winning.
pub open spec fn map_of(s: Seq<(String, StoredValue)>) -> Map<Seq<char>, StoredV>
    decreases s.len(),
{
    if s.len() == 0 {
        Map::empty()
    } else {
        map_of(s.drop_last()).insert(s.last().0@, s.last().1@)
    }
}

/// No name occurs twice.
pub open spec fn names_unique(s: Seq<(String, StoredValue)>) -> bool {
    forall|i: int, j: int| 0 <= i < j < s.len() ==> (#[trigger] s[i]).0@ != (#[trigger] s[j]).0@
}

/// The local values of a binding are in strictly increasing scopes, none after `c`.
pub open spec fn locals_ok(v: StoredV, c: nat) -> bool {
    match v {
        StoredV::Locals(s) => {
            &&& forall|i: int, j: int| 0 <= i < j < s.len() ==> (#[trigger] s[i]).0 < (#[trigger] s[j]).0
            &&& forall|i: int| 0 <= i < s.len() ==> (#[trigger] s[i]).0 <= c
        },
        _ => true,
    }
}

/// Every binding of `m` has its locals in increasing scopes, none after `c`.
pub open spec fn scopes_ok(m: Map<Seq<char>, StoredV>, c: nat) -> bool {
    forall|k: Seq<char>| #[trigger] m.contains_key(k) ==> locals_ok(m[k], c)
}

/// The value visible under the name `k`.
pub open spec fn st_lookup(m: Map<Seq<char>, StoredV>, k: Seq<char>) -> Option<Atom> {
    if m.contains_key(k) {
        stored_atom(m[k])
    } else {
        None
    }
}

/// Assigning `v` to `k` in `scope` (what `Storage::insert` does to the bindings).
pub open spec fn st_insert(m: Map<Seq<char>, StoredV>, k: Seq<char>, v: Atom, scope: usize) -> Map<
    Seq<char>,
    StoredV,
> {
    m.insert(
        k,
        if m.contains_key(k) {
            stored_update(m[k], v, scope)
        } else {
            StoredV::Locals(seq![(scope, v)])
        },
    )
}

/// Ending `scope` (what `Storage::end_scope` does to the bindings).
pub open spec fn st_end_scope(m: Map<Seq<char>, StoredV>, scope: usize) -> Map<Seq<char>, StoredV> {
    Map::new(|k: Seq<char>| m.contains_key(k), |k: Seq<char>| stored_reduce(m[k], scope))
}

/// `map_of` lists the names of the entries, each bound to its entry.
pub proof fn lemma_map_of(s: Seq<(String, StoredValue)>)
    requires
        names_unique(s),
    ensures
        forall|k: Seq<char>|
            #[trigger] map_of(s).contains_key(k) <==> exists|i: int| 0 <= i < s.len() && s[i].0@ == k,
        forall|i: int| 0 <= i < s.len() ==> #[trigger] map_of(s)[s[i].0@] == s[i].1@,
    decreases s.len(),
{
    if s.len() > 0 {
        let t = s.drop_last();
        assert(names_unique(t)) by {
            assert forall|i: int, j: int| 0 <= i < j < t.len() implies (#[trigger] t[i]).0@ != (
            #[trigger] t[j]).0@ by {
                assert(t[i] == s[i] && t[j] == s[j]);
            }
        }
        lemma_map_of(t);
        assert forall|k: Seq<char>|
            #[trigger] map_of(s).contains_key(k) <==> exists|i: int| 0 <= i < s.len() && s[i].0@ == k by {
            if map_of(s).contains_key(k) && k != s.last().0@ {
                assert(map_of(t).contains_key(k));
                let i = choose|i: int| 0 <= i < t.len() && t[i].0@ == k;
                assert(s[i].0@ == k);
            }
            if exists|i: int| 0 <= i < s.len() && s[i].0@ == k {
                let i = choose|i: int| 0 <= i < s.len() && s[i].0@ == k;
                if i < s.len() - 1 {
                    assert(t[i].0@ == k);
                    assert(map_of(t).contains_key(k));
                }
            }
        }
        assert forall|i: int| 0 <= i < s.len() implies #[trigger] map_of(s)[s[i].0@] == s[i].1@ by {
            if i < s.len() - 1 {
                assert(s[i].0@ != s[s.len() - 1].0@);
                assert(t[i] == s[i]);
                assert(map_of(t)[t[i].0@] == t[i].1@);
            }
        }
    }
}

} // verus!

verus! {

/// The variables of a running program.
pub struct Storage {
    data: Vec<(String, StoredValue)>,
    current_scope: usize,
}

impl View for Storage {
    type V = Map<Seq<char>, StoredV>;

    closed spec fn view(&self) -> Map<Seq<char>, StoredV> {
        map_of(self.data@)
    }
}

/// Binding the names of `o` into `m` in `scope`: a global of `o` replaces the
/// binding; the local value of `o` is assigned as by `st_insert`.
pub open spec fn merge_one(m: Map<Seq<char>, StoredV>, k: Seq<char>, ov: StoredV, scope: usize) -> StoredV {
    match ov {
        StoredV::Global(g) => StoredV::Global(g),
        StoredV::Locals(s) => if m.contains_key(k) {
            stored_update(m[k], s[0].1, scope)
        } else {
            StoredV::Locals(seq![(scope, s[0].1)])
        },
    }
}

/// The bindings after taking over all bindings of `o` (what `Storage::extend_from` does).
pub open spec fn st_extend(m: Map<Seq<char>, StoredV>, o: Map<Seq<char>, StoredV>, scope: usize) -> Map<
    Seq<char>,
    StoredV,
> {
    Map::new(
        |k: Seq<char>| m.contains_key(k) || o.contains_key(k),
        |k: Seq<char>|
            if o.contains_key(k) {
                merge_one(m, k, o[k], scope)
            } else {
                m[k]
            },
    )
}

impl Storage {
    /// The current scope (0 at the top level).
    pub closed spec fn scope(&self) -> nat {
        self.current_scope as nat
    }

    /// Each name has one entry.
    pub closed spec fn wf(&self) -> bool {
        names_unique(self.data@)
    }

    /// Every binding's locals are in increasing scopes, none after the current
    /// one. This holds as long as values are only assigned in the current scope.
    pub closed spec fn well_scoped(&self) -> bool {
        scopes_ok(map_of(self.data@), self.current_scope as nat)
    }

    /// An empty storage at the top-level scope.
    pub fn new() -> (s: Storage)
        ensures
            s.wf(),
            s.well_scoped(),
            s@ == Map::<Seq<char>, StoredV>::empty(),
            s.scope() == 0,
    {
        let s = Storage { data: Vec::new(), current_scope: 0 };
        assert(s@ =~= Map::<Seq<char>, StoredV>::empty());
        s
    }

    /// The storage a program starts with: every builtin function bound, at
    /// the top-level scope, to its name.
    pub fn initial() -> (s: Storage)
        ensures
            s.wf(),
            s.well_scoped(),
            s.scope() == 0,
            forall|k: int|
                0 <= k < builtin_names().len() ==> (st_lookup(s@, #[trigger] builtin_names()[k]) matches Some(
                    Atom::Function(f),
                ) && (f.0.body matches FunctionBody::Builtin(j) && 0 <= j < builtin_names().len()
                    && builtin_names()[j as int] == builtin_names()[k] && f.0.argc == builtin_argcs()[j as int])),
            forall|n: Seq<char>| #[trigger] s@.contains_key(n) ==> builtin_names().contains(n),
    {
        let table = all_functions();
        let mut s = Storage::new();
        let mut i: usize = 0;
        while i < table.len()
            invariant
                s.wf(),
                s.well_scoped(),
                s.scope() == 0,
                0 <= i <= table@.len(),
                table@.len() == builtin_names().len(),
                forall|k: int| 0 <= k < table@.len() ==> (#[trigger] table@[k]).0@ == builtin_names()[k] && (
                    table@[k].1 matches Atom::Function(f) && f.0.body == FunctionBody::Builtin(k as usize)
                    && f.0.argc == builtin_argcs()[k]),
                forall|k: int|
                    0 <= k < i ==> (st_lookup(s@, #[trigger] builtin_names()[k]) matches Some(
                        Atom::Function(f),
                    ) && (f.0.body matches FunctionBody::Builtin(j) && 0 <= j < table@.len() && builtin_names()[j as int] == builtin_names()[k]
                        && f.0.argc == builtin_argcs()[j as int])),
                forall|n: Seq<char>| #[trigger] s@.contains_key(n) ==> builtin_names().contains(n),
            decreases table@.len() - i,
        {
            let ghost before = s@;
            s.insert(table[i].0.as_str(), table[i].1.clone());
            proof {
                assert(table@[i as int].0@ == builtin_names()[i as int]);
                assert forall|n: Seq<char>| #[trigger] s@.contains_key(n) implies builtin_names().contains(n) by {
                    if n == builtin_names()[i as int] {
                        assert(builtin_names()[i as int] == n);
                    } else {
                        assert(before.contains_key(n));
                    }
                }
            }
            i = i + 1;
        }
        s
    }

    /// The current scope.
    pub fn current_scope(&self) -> (c: usize)
        ensures
            c == self.scope(),
    {
        self.current_scope
    }

    fn find(&self, name: &String) -> (r: Option<usize>)
        requires
            self.wf(),
        ensures
            match r {
                Some(i) => i < self.data@.len() && self.data@[i as int].0@ == name@,
                None => forall|i: int| 0 <= i < self.data@.len() ==> (#[trigger] self.data@[i]).0@ != name@,
            },
    {
        let mut i: usize = 0;
        while i < self.data.len()
            invariant
                0 <= i <= self.data@.len(),
                forall|j: int| 0 <= j < i ==> (#[trigger] self.data@[j]).0@ != name@,
            decreases self.data@.len() - i,
        {
            if self.data[i].0 == *name {
                return Some(i);
            }
            i = i + 1;
        }
        None
    }

    /// The value visible under `name` (see [`st_lookup`]).
    pub fn get(&self, name: &str) -> (r: Option<&Atom>)
        requires
            self.wf(),
        ensures
            match r {
                Some(a) => st_lookup(self@, name@) == Some(*a),
                None => st_lookup(self@, name@).is_none(),
            },
    {
        proof {
            lemma_map_of(self.data@);
        }
        let key = name.to_owned();
        match self.find(&key) {
            Some(i) => self.data[i].1.as_atom(),
            None => None,
        }
    }
}

/// Replacing the entry at `i` by one of the same name rebinds that name.
proof fn lemma_map_of_update(s: Seq<(String, StoredValue)>, i: int, x: (String, StoredValue))
    requires
        names_unique(s),
        0 <= i < s.len(),
        x.0@ == s[i].0@,
    ensures
        names_unique(s.update(i, x)),
        map_of(s.update(i, x)) == map_of(s).insert(x.0@, x.1@),
{
    let t = s.update(i, x);
    assert(names_unique(t)) by {
        assert forall|a: int, b: int| 0 <= a < b < t.len() implies (#[trigger] t[a]).0@ != (#[trigger] t[b]).0@ by {
            assert(s[a].0@ != s[b].0@);
        }
    }
    lemma_map_of(s);
    lemma_map_of(t);
    assert forall|k: Seq<char>| #[trigger] map_of(t).contains_key(k) <==> map_of(s).insert(x.0@, x.1@).contains_key(k) by {
        if map_of(t).contains_key(k) {
            let j = choose|j: int| 0 <= j < t.len() && t[j].0@ == k;
            assert(s[j].0@ == k);
        }
        if map_of(s).contains_key(k) {
            let j = choose|j: int| 0 <= j < s.len() && s[j].0@ == k;
            assert(t[j].0@ == k);
        }
    }
    assert forall|k: Seq<char>| #[trigger] map_of(t).contains_key(k) implies map_of(t)[k] == map_of(s).insert(x.0@, x.1@)[k] by {
        let j = choose|j: int| 0 <= j < t.len() && t[j].0@ == k;
        assert(map_of(t)[t[j].0@] == t[j].1@);
        if j != i {
            assert(map_of(s)[s[j].0@] == s[j].1@);
        }
    }
    assert(map_of(t) =~= map_of(s).insert(x.0@, x.1@));
}

/// Adding an entry with a new name binds that name.
proof fn lemma_map_of_push(s: Seq<(String, StoredValue)>, x: (String, StoredValue))
    requires
        names_unique(s),
        forall|i: int| 0 <= i < s.len() ==> (#[trigger] s[i]).0@ != x.0@,
    ensures
        names_unique(s.push(x)),
        map_of(s.push(x)) == map_of(s).insert(x.0@, x.1@),
{
    let t = s.push(x);
    assert(t.drop_last() =~= s);
    assert(names_unique(t)) by {
        assert forall|a: int, b: int| 0 <= a < b < t.len() implies (#[trigger] t[a]).0@ != (#[trigger] t[b]).0@ by {
            if b < s.len() {
                assert(s[a].0@ != s[b].0@);
            }
        }
    }
}

/// Assigning in the current scope keeps the locals in increasing scopes.
proof fn lemma_update_locals_ok(v: StoredV, a: Atom, scope: usize)
    requires
        locals_ok(v, scope as nat),
    ensures
        locals_ok(stored_update(v, a, scope), scope as nat),
{
    if let StoredV::Locals(s) = v {
        if s.len() > 0 && s.last().0 == scope {
            let t = s.update(s.len() - 1, (scope, a));
            assert forall|i: int, j: int| 0 <= i < j < t.len() implies (#[trigger] t[i]).0 < (#[trigger] t[j]).0 by {
                assert(s[i].0 < s[j].0);
            }
        } else {
            let t = s.push((scope, a));
            assert forall|i: int, j: int| 0 <= i < j < t.len() implies (#[trigger] t[i]).0 < (#[trigger] t[j]).0 by {
                if j < s.len() {
                    assert(s[i].0 < s[j].0);
                } else {
                    assert(s[i].0 <= scope);
                    if s.len() > 0 && i < s.len() - 1 {
                        assert(s[i].0 < s[s.len() - 1].0);
                    }
                }
            }
        }
    }
}

impl Storage {
    /// Assigns `value` to `name` in the current scope (see [`st_insert`]).
    pub fn insert(&mut self, name: &str, value: Atom)
        requires
            old(self).wf(),
        ensures
            final(self).wf(),
            old(self).well_scoped() ==> final(self).well_scoped(),
            final(self)@ == st_insert(old(self)@, name@, value, old(self).scope() as usize),
            final(self).scope() == old(self).scope(),
    {
        proof {
            lemma_map_of(self.data@);
        }
        let key = name.to_owned();
        let scope = self.current_scope;
        match self.find(&key) {
            Some(i) => {
                let ghost s = self.data@;
                let (n, mut v) = self.data.remove(i);
                v.update(value, scope);
                self.data.insert(i, (n, v));
                proof {
                    assert(self.data@ =~= s.update(i as int, (n, v)));
                    lemma_map_of_update(s, i as int, (n, v));
                    assert(map_of(s)[s[i as int].0@] == s[i as int].1@);
                }
            },
            None => {
                let mut locals: Vec<(usize, Atom)> = Vec::new();
                locals.push((scope, value));
                let ghost s = self.data@;
                self.data.push((key, StoredValue::Locals(locals)));
                proof {
                    lemma_map_of_push(s, (key, StoredValue::Locals(locals)));
                    assert(locals@ =~= seq![(scope, value)]);
                }
            },
        }
        proof {
            let m = map_of(self.data@);
            if old(self).well_scoped() {
                assert forall|k: Seq<char>| #[trigger] m.contains_key(k) implies locals_ok(m[k], self.current_scope as nat) by {
                    if k != name@ {
                        assert(old(self)@.contains_key(k));
                    } else if old(self)@.contains_key(k) {
                        lemma_update_locals_ok(old(self)@[k], value, scope);
                    }
                }
            }
        }
    }

    /// Binds `name` to a global value, replacing any binding it had.
    pub fn add_global(&mut self, name: &str, value: Atom)
        requires
            old(self).wf(),
        ensures
            final(self).wf(),
            old(self).well_scoped() ==> final(self).well_scoped(),
            final(self)@ == old(self)@.insert(name@, StoredV::Global(value)),
            final(self).scope() == old(self).scope(),
    {
        let key = name.to_owned();
        let ghost s = self.data@;
        match self.find(&key) {
            Some(i) => {
                self.data.set(i, (key, StoredValue::Global(value)));
                proof {
                    lemma_map_of_update(s, i as int, (key, StoredValue::Global(value)));
                }
            },
            None => {
                self.data.push((key, StoredValue::Global(value)));
                proof {
                    lemma_map_of_push(s, (key, StoredValue::Global(value)));
                }
            },
        }
        proof {
            let m = map_of(self.data@);
            if old(self).well_scoped() {
                assert forall|k: Seq<char>| #[trigger] m.contains_key(k) implies locals_ok(m[k], self.current_scope as nat) by {
                    if k != name@ {
                        assert(old(self)@.contains_key(k));
                    }
                }
            }
        }
    }

    /// Enters a new, inner scope.
    pub fn start_scope(&mut self)
        requires
            old(self).wf(),
            old(self).scope() < usize::MAX,
        ensures
            final(self).wf(),
            old(self).well_scoped() ==> final(self).well_scoped(),
            final(self)@ == old(self)@,
            final(self).scope() == old(self).scope() + 1,
    {
        self.current_scope = self.current_scope + 1;
    }

    /// Moves to the given scope without dropping or adding any value. Values
    /// assigned afterwards are tagged with that scope.
    pub fn set_scope(&mut self, scope: usize)
        requires
            old(self).wf(),
        ensures
            final(self).wf(),
            final(self)@ == old(self)@,
            final(self).scope() == scope,
    {
        self.current_scope = scope;
    }
}

} // verus!

verus! {

/// Ending the current scope keeps the locals in increasing scopes, none after the outer scope.
proof fn lemma_reduce_locals_ok(v: StoredV, c: nat)
    requires
        c >= 1,
        locals_ok(v, c),
    ensures
        locals_ok(stored_reduce(v, c as usize), (c - 1) as nat),
{
    if let StoredV::Locals(s) = v {
        if s.len() > 0 && s.last().0 == c {
            let t = s.drop_last();
            assert forall|i: int| 0 <= i < t.len() implies (#[trigger] t[i]).0 <= c - 1 by {
                assert(s[i].0 < s[s.len() - 1].0);
            }
            assert forall|i: int, j: int| 0 <= i < j < t.len() implies (#[trigger] t[i]).0 < (#[trigger] t[j]).0 by {
                assert(s[i].0 < s[j].0);
            }
        } else if s.len() > 0 {
            assert forall|i: int| 0 <= i < s.len() implies (#[trigger] s[i]).0 <= c - 1 by {
                if i < s.len() - 1 {
                    assert(s[i].0 < s[s.len() - 1].0);
                }
            }
        }
    }
}

impl Storage {
    /// Leaves the current scope, dropping the values assigned in it
    /// (see [`st_end_scope`]).
    pub fn end_scope(&mut self)
        requires
            old(self).wf(),
            old(self).scope() >= 1,
        ensures
            final(self).wf(),
            old(self).well_scoped() ==> final(self).well_scoped(),
            final(self)@ == st_end_scope(old(self)@, old(self).scope() as usize),
            final(self).scope() == old(self).scope() - 1,
    {
        let scope = self.current_scope;
        let mut rest: Vec<(String, StoredValue)> = Vec::new();
        std::mem::swap(&mut rest, &mut self.data);
        let ghost o = rest@;
        let ghost n = o.len();
        proof {
            lemma_map_of(o);
        }
        while rest.len() > 0
            invariant
                names_unique(o),
                n == o.len(),
                rest@ == o.take(rest@.len() as int),
                rest@.len() + self.data@.len() == n,
                forall|j: int|
                    0 <= j < self.data@.len() ==> (#[trigger] self.data@[j]).0@ == o[n - 1 - j].0@
                        && self.data@[j].1@ == stored_reduce(o[n - 1 - j].1@, scope),
            decreases rest@.len(),
        {
            let ghost before = rest@.len();
            let (name, mut v) = rest.pop().unwrap();
            v.reduce_by_scope(scope);
            self.data.push((name, v));
            assert(rest@ =~= o.take(rest@.len() as int));
        }
        self.current_scope = scope - 1;
        proof {
            let d = self.data@;
            assert(names_unique(d)) by {
                assert forall|a: int, b: int| 0 <= a < b < d.len() implies (#[trigger] d[a]).0@ != (#[trigger] d[b]).0@ by {
                    assert(o[n - 1 - b].0@ != o[n - 1 - a].0@);
                }
            }
            lemma_map_of(d);
            let m = st_end_scope(map_of(o), scope);
            assert forall|k: Seq<char>| #[trigger] map_of(d).contains_key(k) <==> m.contains_key(k) by {
                if map_of(d).contains_key(k) {
                    let j = choose|j: int| 0 <= j < d.len() && d[j].0@ == k;
                    assert(o[n - 1 - j].0@ == k);
                }
                if map_of(o).contains_key(k) {
                    let i = choose|i: int| 0 <= i < o.len() && o[i].0@ == k;
                    assert(d[n - 1 - i].0@ == k);
                }
            }
            assert forall|k: Seq<char>| #[trigger] map_of(d).contains_key(k) implies map_of(d)[k] == m[k] by {
                let j = choose|j: int| 0 <= j < d.len() && d[j].0@ == k;
                assert(map_of(d)[d[j].0@] == d[j].1@);
                assert(map_of(o)[o[n - 1 - j].0@] == o[n - 1 - j].1@);
            }
            assert(map_of(d) =~= m);
            if old(self).well_scoped() {
                assert forall|k: Seq<char>| #[trigger] m.contains_key(k) implies locals_ok(m[k], (scope - 1) as nat) by {
                    lemma_reduce_locals_ok(map_of(o)[k], scope as nat);
                }
            }
        }
    }

    /// Removes the binding of `name`, returning the value it made visible
    /// (the global value, or the innermost local one).
    pub fn undefine(&mut self, name: &str) -> (r: Option<Atom>)
        requires
            old(self).wf(),
        ensures
            final(self).wf(),
            old(self).well_scoped() ==> final(self).well_scoped(),
            final(self)@ == old(self)@.remove(name@),
            final(self).scope() == old(self).scope(),
            r == st_lookup(old(self)@, name@),
    {
        proof {
            lemma_map_of(self.data@);
        }
        let key = name.to_owned();
        match self.find(&key) {
            None => {
                assert(self@ =~= old(self)@.remove(name@));
                None
            },
            Some(i) => {
                let ghost s = self.data@;
                let (_, v) = self.data.remove(i);
                proof {
                    let t = self.data@;
                    assert(t =~= s.remove(i as int));
                    assert(names_unique(t)) by {
                        assert forall|a: int, b: int| 0 <= a < b < t.len() implies (#[trigger] t[a]).0@ != (#[trigger] t[b]).0@ by {
                            if a < i && b >= i {
                                assert(s[a].0@ != s[b + 1].0@);
                            } else if a >= i {
                                assert(s[a + 1].0@ != s[b + 1].0@);
                            } else {
                                assert(s[a].0@ != s[b].0@);
                            }
                        }
                    }
                    lemma_map_of(t);
                    let m = old(self)@.remove(name@);
                    assert forall|k: Seq<char>| #[trigger] map_of(t).contains_key(k) <==> m.contains_key(k) by {
                        if map_of(t).contains_key(k) {
                            let j = choose|j: int| 0 <= j < t.len() && t[j].0@ == k;
                            if j < i {
                                assert(s[j].0@ == k);
                                assert(s[j].0@ != s[i as int].0@);
                            } else {
                                assert(s[j + 1].0@ == k);
                                assert(s[j + 1].0@ != s[i as int].0@);
                            }
                        }
                        if m.contains_key(k) {
                            let j = choose|j: int| 0 <= j < s.len() && s[j].0@ == k;
                            if j < i {
                                assert(t[j].0@ == k);
                            } else {
                                assert(t[j - 1].0@ == k);
                            }
                        }
                    }
                    assert forall|k: Seq<char>| #[trigger] map_of(t).contains_key(k) implies map_of(t)[k] == m[k] by {
                        let j = choose|j: int| 0 <= j < t.len() && t[j].0@ == k;
                        assert(map_of(t)[t[j].0@] == t[j].1@);
                        if j < i {
                            assert(map_of(s)[s[j].0@] == s[j].1@);
                        } else {
                            assert(map_of(s)[s[j + 1].0@] == s[j + 1].1@);
                        }
                    }
                    assert(map_of(t) =~= m);
                    assert(map_of(s)[s[i as int].0@] == s[i as int].1@);
                }
                match v {
                    StoredValue::Global(g) => Some(g),
                    StoredValue::Locals(mut locals) => {
                        match locals.pop() {
                            Some((_, a)) => Some(a),
                            None => None,
                        }
                    },
                }
            },
        }
    }
}

} // verus!

verus! {

/// Every local binding of `m` holds exactly one value.
pub open spec fn single_locals(m: Map<Seq<char>, StoredV>) -> bool {
    forall|k: Seq<char>| #[trigger] m.contains_key(k) ==> (m[k] matches StoredV::Locals(s) ==> s.len() == 1)
}

impl Storage {
    /// Whether every local binding holds exactly one value (see [`single_locals`]).
    pub fn has_single_locals(&self) -> (r: bool)
        requires
            self.wf(),
        ensures
            r == single_locals(self@),
    {
        proof {
            lemma_map_of(self.data@);
        }
        let mut i: usize = 0;
        while i < self.data.len()
            invariant
                self.wf(),
                0 <= i <= self.data@.len(),
                forall|j: int| 0 <= j < self.data@.len() ==> #[trigger] map_of(self.data@)[self.data@[j].0@] == self.data@[j].1@,
                forall|k: Seq<char>|
                    #[trigger] map_of(self.data@).contains_key(k) <==> exists|j: int| 0 <= j < self.data@.len() && self.data@[j].0@ == k,
                forall|j: int|
                    0 <= j < i ==> ((#[trigger] self.data@[j]).1@ matches StoredV::Locals(s) ==> s.len() == 1),
            decreases self.data@.len() - i,
        {
            match &self.data[i].1 {
                StoredValue::Locals(v) => {
                    if v.len() != 1 {
                        proof {
                            assert(map_of(self.data@)[self.data@[i as int].0@] == self.data@[i as int].1@);
                            assert(map_of(self.data@).contains_key(self.data@[i as int].0@));
                        }
                        return false;
                    }
                },
                StoredValue::Global(_) => {},
            }
            i = i + 1;
        }
        proof {
            assert forall|k: Seq<char>| #[trigger] self@.contains_key(k) implies (self@[k] matches StoredV::Locals(
                s,
            ) ==> s.len() == 1) by {
                let j = choose|j: int| 0 <= j < self.data@.len() && self.data@[j].0@ == k;
                assert(map_of(self.data@)[self.data@[j].0@] == self.data@[j].1@);
            }
        }
        true
    }

    /// Takes over all bindings of `other`, a top-level storage whose local
    /// bindings each hold one value (see [`st_extend`]).
    pub fn extend_from(&mut self, other: Storage)
        requires
            old(self).wf(),
            other.wf(),
            other.scope() == 0,
            single_locals(other@),
        ensures
            final(self).wf(),
            old(self).well_scoped() ==> final(self).well_scoped(),
            final(self)@ == st_extend(old(self)@, other@, old(self).scope() as usize),
            final(self).scope() == old(self).scope(),
    {
        let ghost ws = self.well_scoped();
        let ghost m0 = self@;
        let ghost o = other.data@;
        let ghost n = o.len();
        let scope = self.current_scope;
        let mut rest = other.data;
        proof {
            lemma_map_of(o);
            assert(o.take(n as int) =~= o);
        }
        while rest.len() > 0
            invariant
                self.wf(),
                ws ==> self.well_scoped(),
                self.current_scope == scope,
                names_unique(o),
                n == o.len(),
                single_locals(map_of(o)),
                forall|i: int| 0 <= i < o.len() ==> #[trigger] map_of(o)[o[i].0@] == o[i].1@,
                rest@ == o.take(rest@.len() as int),
                rest@.len() <= n,
                forall|k: Seq<char>|
                    #[trigger] self@.contains_key(k) <==> (m0.contains_key(k) || exists|i: int|
                        rest@.len() <= i < n && o[i].0@ == k),
                forall|k: Seq<char>|
                    #[trigger] self@.contains_key(k) ==> self@[k] == if exists|i: int|
                        rest@.len() <= i < n && o[i].0@ == k {
                        merge_one(m0, k, map_of(o)[k], scope)
                    } else {
                        m0[k]
                    },
            decreases rest@.len(),
        {
            let ghost r0 = rest@.len();
            let ghost rr = rest@;
            let (name, v) = rest.pop().unwrap();
            let ghost idx = r0 - 1;
            assert(rr[idx] == o[idx]);
            assert((name, v) == rr[idx]);
            assert(o[idx].0@ == name@ && o[idx].1@ == v@);
            let ghost pre = self@;
            proof {
                lemma_map_of(o);
                assert(map_of(o).contains_key(o[idx].0@));
                assert forall|i: int| r0 <= i < n implies o[i].0@ != name@ by {
                    assert(o[idx].0@ != o[i].0@);
                }
            }
            match v {
                StoredValue::Global(g) => {
                    self.add_global(name.as_str(), g);
                },
                StoredValue::Locals(mut locals) => {
                    assert(locals@.len() == 1);
                    let (_, a) = locals.pop().unwrap();
                    self.insert(name.as_str(), a);
                },
            }
            proof {
                assert(rest@ =~= o.take(rest@.len() as int));
                assert forall|k: Seq<char>|
                    #[trigger] self@.contains_key(k) <==> (m0.contains_key(k) || exists|i: int|
                        rest@.len() <= i < n && o[i].0@ == k) by {
                    if k == name@ {
                        assert(o[idx].0@ == k);
                    } else {
                        if exists|i: int| rest@.len() <= i < n && o[i].0@ == k {
                            let i = choose|i: int| rest@.len() <= i < n && o[i].0@ == k;
                            assert(i != idx);
                            assert(r0 <= i < n && o[i].0@ == k);
                        }
                        if exists|i: int| r0 <= i < n && o[i].0@ == k {
                            let i = choose|i: int| r0 <= i < n && o[i].0@ == k;
                            assert(rest@.len() <= i < n && o[i].0@ == k);
                        }
                    }
                }
                assert forall|k: Seq<char>| #[trigger] self@.contains_key(k) implies self@[k] == if exists|i: int|
                    rest@.len() <= i < n && o[i].0@ == k {
                    merge_one(m0, k, map_of(o)[k], scope)
                } else {
                    m0[k]
                } by {
                    if k == name@ {
                        assert(o[idx].0@ == k);
                        if !(exists|i: int| r0 <= i < n && o[i].0@ == k) {
                        }
                    } else {
                        assert(pre.contains_key(k));
                        if exists|i: int| rest@.len() <= i < n && o[i].0@ == k {
                            let i = choose|i: int| rest@.len() <= i < n && o[i].0@ == k;
                            assert(i != idx);
                            assert(r0 <= i < n && o[i].0@ == k);
                        }
                        if exists|i: int| r0 <= i < n && o[i].0@ == k {
                            let i = choose|i: int| r0 <= i < n && o[i].0@ == k;
                            assert(rest@.len() <= i < n && o[i].0@ == k);
                        }
                    }
                }
            }
        }
        proof {
            let expected = st_extend(m0, map_of(o), scope);
            assert forall|k: Seq<char>| #[trigger] self@.contains_key(k) <==> expected.contains_key(k) by {
                if map_of(o).contains_key(k) {
                    let i = choose|i: int| 0 <= i < o.len() && o[i].0@ == k;
                    assert(0 <= i < n && o[i].0@ == k);
                }
                if exists|i: int| 0 <= i < n && o[i].0@ == k {
                    assert(map_of(o).contains_key(k));
                }
            }
            assert forall|k: Seq<char>| #[trigger] self@.contains_key(k) implies self@[k] == expected[k] by {
                if map_of(o).contains_key(k) {
                    let i = choose|i: int| 0 <= i < o.len() && o[i].0@ == k;
                    assert(0 <= i < n && o[i].0@ == k);
                }
                if exists|i: int| 0 <= i < n && o[i].0@ == k {
                    assert(map_of(o).contains_key(k));
                }
            }
            assert(self@ =~= expected);
        }
    }

    /// All names with a visible value, each with that value.
    pub fn all_data(&self) -> (r: Vec<(String, Atom)>)
        requires
            self.wf(),
        ensures
            forall|j: int| 0 <= j < r@.len() ==> st_lookup(self@, (#[trigger] r@[j]).0@) == Some(r@[j].1),
            forall|k: Seq<char>|
                #[trigger] st_lookup(self@, k) is Some ==> exists|j: int| 0 <= j < r@.len() && r@[j].0@ == k,
            forall|a: int, b: int| 0 <= a < b < r@.len() ==> (#[trigger] r@[a]).0@ != (#[trigger] r@[b]).0@,
    {
        proof {
            lemma_map_of(self.data@);
        }
        let mut r: Vec<(String, Atom)> = Vec::new();
        let mut i: usize = 0;
        while i < self.data.len()
            invariant
                self.wf(),
                0 <= i <= self.data@.len(),
                forall|j: int| 0 <= j < self.data@.len() ==> #[trigger] self@[self.data@[j].0@] == self.data@[j].1@,
                forall|k: Seq<char>| #[trigger] self@.contains_key(k) <==> exists|j: int| 0 <= j < self.data@.len() && self.data@[j].0@ == k,
                forall|j: int| 0 <= j < r@.len() ==> st_lookup(self@, (#[trigger] r@[j]).0@) == Some(r@[j].1),
                forall|j: int| 0 <= j < r@.len() ==> exists|t: int| 0 <= t < i && (#[trigger] r@[j]).0@ == self.data@[t].0@,
                forall|t: int|
                    0 <= t < i && stored_atom(#[trigger] self.data@[t].1@) is Some ==> exists|j: int|
                        0 <= j < r@.len() && r@[j].0@ == self.data@[t].0@,
                forall|a: int, b: int| 0 <= a < b < r@.len() ==> (#[trigger] r@[a]).0@ != (#[trigger] r@[b]).0@,
            decreases self.data@.len() - i,
        {
            match self.data[i].1.as_atom() {
                Some(a) => {
                    let ghost before = r@;
                    proof {
                        assert(self@.contains_key(self.data@[i as int].0@));
                        assert forall|j: int| 0 <= j < before.len() implies before[j].0@ != self.data@[i as int].0@ by {
                            let t = choose|t: int| 0 <= t < i && before[j].0@ == self.data@[t].0@;
                            assert(self.data@[t].0@ != self.data@[i as int].0@);
                        }
                    }
                    r.push((self.data[i].0.clone(), a.clone()));
                    proof {
                        assert(r@[r@.len() - 1].0@ == self.data@[i as int].0@);
                        assert forall|j: int| 0 <= j < r@.len() implies exists|t: int| 0 <= t < i + 1 && (#[trigger] r@[j]).0@ == self.data@[t].0@ by {
                            if j < before.len() {
                                assert(r@[j] == before[j]);
                                let t = choose|t: int| 0 <= t < i && before[j].0@ == self.data@[t].0@;
                                assert(0 <= t < i + 1 && r@[j].0@ == self.data@[t].0@);
                            } else {
                                assert(0 <= i < i + 1 && r@[j].0@ == self.data@[i as int].0@);
                            }
                        }
                        assert forall|t: int| 0 <= t < i + 1 && stored_atom(#[trigger] self.data@[t].1@) is Some implies exists|j: int|
                            0 <= j < r@.len() && r@[j].0@ == self.data@[t].0@ by {
                            if t < i {
                                let j = choose|j: int| 0 <= j < before.len() && before[j].0@ == self.data@[t].0@;
                                assert(r@[j] == before[j]);
                            } else {
                                assert(r@[r@.len() - 1].0@ == self.data@[t].0@);
                            }
                        }
                    }
                },
                None => {},
            }
            i = i + 1;
        }
        proof {
            assert forall|k: Seq<char>| #[trigger] st_lookup(self@, k) is Some implies exists|j: int| 0 <= j < r@.len() && r@[j].0@ == k by {
                let t = choose|t: int| 0 <= t < self.data@.len() && self.data@[t].0@ == k;
                assert(stored_atom(self.data@[t].1@) is Some);
            }
        }
        r
    }

    /// All names bound to a global value, each with that value.
    pub fn all_globals(&self) -> (r: Vec<(String, Atom)>)
        requires
            self.wf(),
        ensures
            forall|j: int| 0 <= j < r@.len() ==> self@.contains_key((#[trigger] r@[j]).0@) && self@[r@[j].0@] == StoredV::Global(r@[j].1),
            forall|k: Seq<char>|
                #[trigger] self@.contains_key(k) && self@[k] is Global ==> exists|j: int| 0 <= j < r@.len() && r@[j].0@ == k,
    {
        proof {
            lemma_map_of(self.data@);
        }
        let mut r: Vec<(String, Atom)> = Vec::new();
        let mut i: usize = 0;
        while i < self.data.len()
            invariant
                self.wf(),
                0 <= i <= self.data@.len(),
                forall|j: int| 0 <= j < self.data@.len() ==> #[trigger] self@[self.data@[j].0@] == self.data@[j].1@,
                forall|k: Seq<char>| #[trigger] self@.contains_key(k) <==> exists|j: int| 0 <= j < self.data@.len() && self.data@[j].0@ == k,
                forall|j: int| 0 <= j < r@.len() ==> self@.contains_key((#[trigger] r@[j]).0@) && self@[r@[j].0@] == StoredV::Global(r@[j].1),
                forall|t: int|
                    0 <= t < i && (#[trigger] self.data@[t]).1@ is Global ==> exists|j: int|
                        0 <= j < r@.len() && r@[j].0@ == self.data@[t].0@,
            decreases self.data@.len() - i,
        {
            match &self.data[i].1 {
                StoredValue::Global(a) => {
                    let ghost before = r@;
                    proof {
                        assert(self@.contains_key(self.data@[i as int].0@));
                    }
                    r.push((self.data[i].0.clone(), a.clone()));
                    proof {
                        assert forall|t: int| 0 <= t < i + 1 && (#[trigger] self.data@[t]).1@ is Global implies exists|j: int|
                            0 <= j < r@.len() && r@[j].0@ == self.data@[t].0@ by {
                            if t < i {
                                let j = choose|j: int| 0 <= j < before.len() && before[j].0@ == self.data@[t].0@;
                                assert(r@[j] == before[j]);
                            } else {
                                assert(r@[r@.len() - 1].0@ == self.data@[t].0@);
                            }
                        }
                    }
                },
                _ => {},
            }
            i = i + 1;
        }
        proof {
            assert forall|k: Seq<char>| #[trigger] self@.contains_key(k) && self@[k] is Global implies exists|j: int| 0 <= j < r@.len() && r@[j].0@ == k by {
                let t = choose|t: int| 0 <= t < self.data@.len() && self.data@[t].0@ == k;
                assert(self.data@[t].1@ is Global);
            }
        }
        r
    }
}

} // verus!

verus! {

/// The local values of `s` assigned in scope `c` or an outer one.
pub open spec fn keep_upto(s: Seq<(usize, Atom)>, c: nat) -> Seq<(usize, Atom)>
    decreases s.len(),
{
    if s.len() == 0 {
        s
    } else if s.last().0 <= c {
        keep_upto(s.drop_last(), c).push(s.last())
    } else {
        keep_upto(s.drop_last(), c)
    }
}

/// The bindings as seen from scope `c`: locals of inner scopes removed.
pub open spec fn outer(m: Map<Seq<char>, StoredV>, c: nat) -> Map<Seq<char>, StoredV> {
    Map::new(
        |k: Seq<char>| m.contains_key(k),
        |k: Seq<char>|
            match m[k] {
                StoredV::Locals(s) => StoredV::Locals(keep_upto(s, c)),
                StoredV::Global(g) => StoredV::Global(g),
            },
    )
}

proof fn lemma_keep_all(s: Seq<(usize, Atom)>, c: nat)
    requires
        forall|i: int| 0 <= i < s.len() ==> (#[trigger] s[i]).0 <= c,
    ensures
        keep_upto(s, c) == s,
    decreases s.len(),
{
    if s.len() > 0 {
        lemma_keep_all(s.drop_last(), c);
        assert(s.drop_last().push(s.last()) =~= s);
    }
}

/// A binding assigned `v` in `scope` makes `v` visible.
pub proof fn law_lookup_after_insert(m: Map<Seq<char>, StoredV>, k: Seq<char>, v: Atom, scope: usize)
    ensures
        st_lookup(st_insert(m, k, v, scope), k) == Some(v),
{
}

/// Assigning a name leaves every other name as it was.
pub proof fn law_insert_other(m: Map<Seq<char>, StoredV>, k: Seq<char>, j: Seq<char>, v: Atom, scope: usize)
    requires
        j != k,
    ensures
        st_lookup(st_insert(m, k, v, scope), j) == st_lookup(m, j),
{
}

/// From inside the current scope, the bindings are as they are: nothing is
/// assigned in an inner scope.
pub proof fn law_outer_current(m: Map<Seq<char>, StoredV>, c: nat)
    requires
        scopes_ok(m, c),
    ensures
        outer(m, c) == m,
{
    assert forall|k: Seq<char>| #[trigger] m.contains_key(k) implies outer(m, c)[k] == m[k] by {
        if let StoredV::Locals(s) = m[k] {
            assert(locals_ok(m[k], c));
            lemma_keep_all(s, c);
        }
    }
    assert(outer(m, c) =~= m);
}

/// Ending scope `c + 1` leaves exactly what was visible from scope `c`.
pub proof fn law_end_scope_is_outer(m: Map<Seq<char>, StoredV>, c: nat)
    requires
        scopes_ok(m, c + 1),
        c + 1 <= usize::MAX,
    ensures
        st_end_scope(m, (c + 1) as usize) == outer(m, c),
{
    assert forall|k: Seq<char>| #[trigger] m.contains_key(k) implies st_end_scope(m, (c + 1) as usize)[k] == outer(m, c)[k] by {
        if let StoredV::Locals(s) = m[k] {
            assert(locals_ok(m[k], c + 1));
            if s.len() > 0 && s.last().0 == c + 1 {
                let t = s.drop_last();
                assert forall|i: int| 0 <= i < t.len() implies (#[trigger] t[i]).0 <= c by {
                    assert(s[i].0 < s[s.len() - 1].0);
                }
                lemma_keep_all(t, c);
            } else {
                assert forall|i: int| 0 <= i < s.len() implies (#[trigger] s[i]).0 <= c by {
                    if i < s.len() - 1 {
                        assert(s[i].0 < s[s.len() - 1].0);
                    }
                }
                lemma_keep_all(s, c);
            }
        }
    }
    assert(st_end_scope(m, (c + 1) as usize) =~= outer(m, c));
}

/// Assigning a non-global name in scope `c + 1` changes nothing visible from scope `c`.
pub proof fn law_insert_keeps_outer(m: Map<Seq<char>, StoredV>, c: nat, k: Seq<char>, v: Atom, j: Seq<char>)
    requires
        scopes_ok(m, c + 1),
        c + 1 <= usize::MAX,
        !(m.contains_key(k) && m[k] is Global),
    ensures
        st_lookup(outer(st_insert(m, k, v, (c + 1) as usize), c), j) == st_lookup(outer(m, c), j),
{
    let m1 = st_insert(m, k, v, (c + 1) as usize);
    if j == k {
        if m.contains_key(k) {
            if let StoredV::Locals(s) = m[k] {
                if s.len() > 0 && s.last().0 == c + 1 {
                    let t = s.update(s.len() - 1, ((c + 1) as usize, v));
                    assert(t.drop_last() =~= s.drop_last());
                    assert(keep_upto(t, c) == keep_upto(t.drop_last(), c));
                    assert(keep_upto(s, c) == keep_upto(s.drop_last(), c));
                    assert(m1[k] == StoredV::Locals(t));
                } else {
                    let t = s.push(((c + 1) as usize, v));
                    assert(t.drop_last() =~= s);
                    assert(keep_upto(t, c) == keep_upto(s, c));
                    assert(m1[k] == StoredV::Locals(t));
                }
            }
        } else {
            let t = seq![((c + 1) as usize, v)];
            assert(t.drop_last() =~= Seq::<(usize, Atom)>::empty());
            assert(keep_upto(t, c) == keep_upto(t.drop_last(), c));
            assert(keep_upto(t, c).len() == 0);
        }
    } else {
        assert(m1.contains_key(j) == m.contains_key(j));
        if m.contains_key(j) {
            assert(m1[j] == m[j]);
        }
    }
}

/// A function call's scope leaves no trace: starting a scope, assigning a
/// non-global name in it and ending it again leaves every name with the value
/// it had before.
pub proof fn law_scope_restores(m: Map<Seq<char>, StoredV>, c: nat, k: Seq<char>, v: Atom, j: Seq<char>)
    requires
        scopes_ok(m, c),
        c + 1 <= usize::MAX,
        !(m.contains_key(k) && m[k] is Global),
    ensures
        st_lookup(st_end_scope(st_insert(m, k, v, (c + 1) as usize), (c + 1) as usize), j) == st_lookup(m, j),
{
    let m1 = st_insert(m, k, v, (c + 1) as usize);
    assert(scopes_ok(m, c + 1)) by {
        assert forall|x: Seq<char>| #[trigger] m.contains_key(x) implies locals_ok(m[x], c + 1) by {
            assert(locals_ok(m[x], c));
        }
    }
    assert(scopes_ok(m1, c + 1)) by {
        assert forall|x: Seq<char>| #[trigger] m1.contains_key(x) implies locals_ok(m1[x], c + 1) by {
            if x == k && m.contains_key(k) {
                lemma_update_locals_ok(m[k], v, (c + 1) as usize);
            }
        }
    }
    law_end_scope_is_outer(m1, c);
    law_insert_keeps_outer(m, c, k, v, j);
    law_outer_current(m, c);
}

/// Assigning each name of `ks` its value in turn, in `scope`.
pub open spec fn st_insert_all(m: Map<Seq<char>, StoredV>, ks: Seq<(Seq<char>, Atom)>, scope: usize) -> Map<
    Seq<char>,
    StoredV,
>
    decreases ks.len(),
{
    if ks.len() == 0 {
        m
    } else {
        st_insert(st_insert_all(m, ks.drop_last(), scope), ks.last().0, ks.last().1, scope)
    }
}

/// Assigning names keeps every name that was bound.
proof fn lemma_insert_all_keeps_keys(m: Map<Seq<char>, StoredV>, ks: Seq<(Seq<char>, Atom)>, scope: usize, j: Seq<char>)
    requires
        m.contains_key(j),
    ensures
        st_insert_all(m, ks, scope).contains_key(j),
    decreases ks.len(),
{
    if ks.len() > 0 {
        lemma_insert_all_keeps_keys(m, ks.drop_last(), scope, j);
    }
}

/// Assigning names in scope `c + 1` keeps the bindings well scoped there,
/// keeps the names that were not global so, and changes nothing that is seen
/// from scope `c`.
proof fn lemma_insert_all_outer(m: Map<Seq<char>, StoredV>, c: nat, ks: Seq<(Seq<char>, Atom)>, j: Seq<char>)
    requires
        scopes_ok(m, c + 1),
        c + 1 <= usize::MAX,
        forall|i: int| 0 <= i < ks.len() ==> !(m.contains_key((#[trigger] ks[i]).0) && m[ks[i].0] is Global),
    ensures
        scopes_ok(st_insert_all(m, ks, (c + 1) as usize), c + 1),
        forall|k: Seq<char>|
            !(m.contains_key(k) && m[k] is Global) ==> !(#[trigger] st_insert_all(m, ks, (c + 1) as usize).contains_key(k)
                && st_insert_all(m, ks, (c + 1) as usize)[k] is Global),
        st_lookup(outer(st_insert_all(m, ks, (c + 1) as usize), c), j) == st_lookup(outer(m, c), j),
    decreases ks.len(),
{
    if ks.len() > 0 {
        let rest = ks.drop_last();
        assert forall|i: int| 0 <= i < rest.len() implies !(m.contains_key((#[trigger] rest[i]).0) && m[rest[i].0] is Global) by {
            assert(rest[i] == ks[i]);
        }
        lemma_insert_all_outer(m, c, rest, j);
        let m0 = st_insert_all(m, rest, (c + 1) as usize);
        let k = ks.last().0;
        let v = ks.last().1;
        assert(ks[ks.len() - 1] == ks.last());
        let m1 = st_insert(m0, k, v, (c + 1) as usize);
        assert(scopes_ok(m1, c + 1)) by {
            assert forall|x: Seq<char>| #[trigger] m1.contains_key(x) implies locals_ok(m1[x], c + 1) by {
                if x == k && m0.contains_key(k) {
                    lemma_update_locals_ok(m0[k], v, (c + 1) as usize);
                }
            }
        }
        law_insert_keeps_outer(m0, c, k, v, j);
    }
}

/// Assigning names that are not global in a new scope, and leaving the
/// scope again, gives every name back the value it had.
pub proof fn law_scope_restores_all(m: Map<Seq<char>, StoredV>, c: nat, ks: Seq<(Seq<char>, Atom)>, j: Seq<char>)
    requires
        scopes_ok(m, c),
        c + 1 <= usize::MAX,
        forall|i: int| 0 <= i < ks.len() ==> !(m.contains_key((#[trigger] ks[i]).0) && m[ks[i].0] is Global),
    ensures
        st_lookup(st_end_scope(st_insert_all(m, ks, (c + 1) as usize), (c + 1) as usize), j) == st_lookup(m, j),
{
    assert(scopes_ok(m, c + 1)) by {
        assert forall|x: Seq<char>| #[trigger] m.contains_key(x) implies locals_ok(m[x], c + 1) by {
            assert(locals_ok(m[x], c));
        }
    }
    lemma_insert_all_outer(m, c, ks, j);
    law_end_scope_is_outer(st_insert_all(m, ks, (c + 1) as usize), c);
    law_outer_current(m, c);
}

/// The binding that assigning `v` to `k` in `scope` gives `k`.
pub open spec fn assigned(m: Map<Seq<char>, StoredV>, k: Seq<char>, v: Atom, scope: usize) -> StoredV {
    if m.contains_key(k) {
        stored_update(m[k], v, scope)
    } else {
        StoredV::Locals(seq![(scope, v)])
    }
}

/// Whether the bindings `b` come from `a` by assignments in `scope` alone
/// (and by calls whose scopes ended): no name is dropped, and each name keeps
/// its binding, has the binding that assigning some value in `scope` gives
/// it, or is new with no value left.
pub open spec fn scoped_change(a: Map<Seq<char>, StoredV>, b: Map<Seq<char>, StoredV>, scope: usize) -> bool {
    &&& forall|k: Seq<char>| #[trigger] a.contains_key(k) ==> b.contains_key(k)
    &&& forall|k: Seq<char>|
        #[trigger] b.contains_key(k) ==> ((a.contains_key(k) && b[k] == a[k]) || (!a.contains_key(k) && b[k]
            == StoredV::Locals(Seq::empty())) || exists|v: Atom| b[k] == assigned(a, k, v, scope))
}

/// Assigning a name twice in the same scope gives it the binding that
/// assigning the second value alone gives.
proof fn lemma_assigned_twice(m: Map<Seq<char>, StoredV>, b: Map<Seq<char>, StoredV>, k: Seq<char>, v1: Atom, v2: Atom, scope: usize)
    requires
        b.contains_key(k),
        b[k] == assigned(m, k, v1, scope),
    ensures
        assigned(b, k, v2, scope) == assigned(m, k, v2, scope),
{
    if m.contains_key(k) {
        if let StoredV::Locals(s) = m[k] {
            if s.len() > 0 && s.last().0 == scope {
                let t = s.update(s.len() - 1, (scope, v1));
                assert(t.update(t.len() - 1, (scope, v2)) =~= s.update(s.len() - 1, (scope, v2)));
            } else {
                let t = s.push((scope, v1));
                assert(t.update(t.len() - 1, (scope, v2)) =~= s.push((scope, v2)));
            }
        }
    } else {
        assert(seq![(scope, v1)].update(0, (scope, v2)) =~= seq![(scope, v2)]);
    }
}

/// Bindings are a scoped change of themselves.
pub proof fn lemma_scoped_change_refl(a: Map<Seq<char>, StoredV>, scope: usize)
    ensures
        scoped_change(a, a, scope),
{
}

/// Assigning a value in scope `c + 1` to a binding that is not global
/// changes nothing of it that is seen from scope `c`.
proof fn lemma_update_keeps_outer(s: Seq<(usize, Atom)>, v: Atom, c: nat)
    requires
        locals_ok(StoredV::Locals(s), c + 1),
        c + 1 <= usize::MAX,
    ensures
        stored_update(StoredV::Locals(s), v, (c + 1) as usize) matches StoredV::Locals(t) && keep_upto(t, c)
            == keep_upto(s, c),
{
    if s.len() > 0 && s.last().0 == c + 1 {
        let t = s.update(s.len() - 1, ((c + 1) as usize, v));
        assert(t.drop_last() =~= s.drop_last());
        assert(keep_upto(t, c) == keep_upto(t.drop_last(), c));
        assert(keep_upto(s, c) == keep_upto(s.drop_last(), c));
    } else {
        let t = s.push(((c + 1) as usize, v));
        assert(t.drop_last() =~= s);
        assert(keep_upto(t, c) == keep_upto(s, c));
    }
}

/// Assigning names that are not global in scope `c + 1`: seen from scope
/// `c`, every name that was bound is as it was, a new name has no value, and
/// the globals are untouched.
proof fn lemma_insert_all_exact(m: Map<Seq<char>, StoredV>, c: nat, ks: Seq<(Seq<char>, Atom)>)
    requires
        scopes_ok(m, c + 1),
        c + 1 <= usize::MAX,
        forall|i: int| 0 <= i < ks.len() ==> !(m.contains_key((#[trigger] ks[i]).0) && m[ks[i].0] is Global),
    ensures
        forall|j: Seq<char>| #[trigger] m.contains_key(j) ==> st_insert_all(m, ks, (c + 1) as usize).contains_key(j),
        forall|j: Seq<char>|
            #[trigger] st_insert_all(m, ks, (c + 1) as usize).contains_key(j) ==> outer(
                st_insert_all(m, ks, (c + 1) as usize),
                c,
            )[j] == if m.contains_key(j) {
                outer(m, c)[j]
            } else {
                StoredV::Locals(Seq::empty())
            },
        forall|j: Seq<char>|
            m.contains_key(j) && m[j] is Global ==> #[trigger] st_insert_all(m, ks, (c + 1) as usize)[j] == m[j],
    decreases ks.len(),
{
    if ks.len() > 0 {
        let rest = ks.drop_last();
        assert forall|i: int| 0 <= i < rest.len() implies !(m.contains_key((#[trigger] rest[i]).0) && m[rest[i].0] is Global) by {
            assert(rest[i] == ks[i]);
        }
        lemma_insert_all_exact(m, c, rest);
        lemma_insert_all_outer(m, c, rest, ks.last().0);
        let m0 = st_insert_all(m, rest, (c + 1) as usize);
        let k = ks.last().0;
        let v = ks.last().1;
        assert(ks[ks.len() - 1] == ks.last());
        let m1 = st_insert(m0, k, v, (c + 1) as usize);
        assert(!(m0.contains_key(k) && m0[k] is Global));
        if m0.contains_key(k) {
            if let StoredV::Locals(s0) = m0[k] {
                assert(locals_ok(m0[k], c + 1));
                lemma_update_keeps_outer(s0, v, c);
            }
        } else {
            let t = seq![((c + 1) as usize, v)];
            assert(t.drop_last() =~= Seq::<(usize, Atom)>::empty());
            assert(keep_upto(t, c) == keep_upto(t.drop_last(), c));
            assert(keep_upto(t, c) =~= Seq::<(usize, Atom)>::empty());
        }
        assert forall|j: Seq<char>| #[trigger] m1.contains_key(j) implies outer(m1, c)[j] == if m.contains_key(j) {
            outer(m, c)[j]
        } else {
            StoredV::Locals(Seq::empty())
        } by {
            if j != k {
                assert(m0.contains_key(j));
                assert(m1[j] == m0[j]);
            }
        }
    }
}

/// A call's scope, seen from the caller: assigning names that are not global
/// in scope `c + 1`, making any scoped change there and ending the scope again
/// is a scoped change in scope `c` that keeps the globals' names; a global
/// keeps the value the call left it.
pub proof fn law_call_is_scoped_change(
    m: Map<Seq<char>, StoredV>,
    c: nat,
    ks: Seq<(Seq<char>, Atom)>,
    inner: Map<Seq<char>, StoredV>,
)
    requires
        scopes_ok(m, c),
        c + 1 <= usize::MAX,
        forall|i: int| 0 <= i < ks.len() ==> !(m.contains_key((#[trigger] ks[i]).0) && m[ks[i].0] is Global),
        scoped_change(st_insert_all(m, ks, (c + 1) as usize), inner, (c + 1) as usize),
    ensures
        scoped_change(m, st_end_scope(inner, (c + 1) as usize), c as usize),
        forall|k: Seq<char>|
            m.contains_key(k) && m[k] is Global ==> #[trigger] st_end_scope(inner, (c + 1) as usize)[k] == inner[k]
                && inner[k] is Global,
        forall|k: Seq<char>|
            #[trigger] st_end_scope(inner, (c + 1) as usize).contains_key(k) && st_end_scope(inner, (c + 1) as usize)[k] is Global
                ==> m.contains_key(k) && m[k] is Global,
{
    let sc = (c + 1) as usize;
    let mm = st_insert_all(m, ks, sc);
    let e = st_end_scope(inner, sc);
    let cs = c as usize;
    assert(scopes_ok(m, c + 1)) by {
        assert forall|x: Seq<char>| #[trigger] m.contains_key(x) implies locals_ok(m[x], c + 1) by {
            assert(locals_ok(m[x], c));
        }
    }
    lemma_insert_all_outer(m, c, ks, Seq::empty());
    lemma_insert_all_exact(m, c, ks);
    law_outer_current(m, c);
    assert(scopes_ok(inner, c + 1)) by {
        assert forall|x: Seq<char>| #[trigger] inner.contains_key(x) implies locals_ok(inner[x], c + 1) by {
            if !(mm.contains_key(x) && inner[x] == mm[x]) && !(!mm.contains_key(x) && inner[x] == StoredV::Locals(
                Seq::empty(),
            )) {
                let v = choose|v: Atom| inner[x] == #[trigger] assigned(mm, x, v, sc);
                if mm.contains_key(x) {
                    lemma_update_locals_ok(mm[x], v, sc);
                }
            }
        }
    }
    law_end_scope_is_outer(inner, c);
    assert forall|k: Seq<char>| #[trigger] e.contains_key(k) implies ((m.contains_key(k) && e[k] == m[k]) || (
    !m.contains_key(k) && e[k] == StoredV::Locals(Seq::empty())) || exists|w: Atom| e[k] == #[trigger] assigned(m, k, w, cs))
        && (e[k] is Global ==> m.contains_key(k) && m[k] is Global) by {
        assert(inner.contains_key(k));
        if mm.contains_key(k) && inner[k] == mm[k] {
            if m.contains_key(k) && m[k] is Global {
                assert(e[k] == m[k]);
            }
        } else if !mm.contains_key(k) && inner[k] == StoredV::Locals(Seq::empty()) {
            assert(keep_upto(Seq::<(usize, Atom)>::empty(), c) =~= Seq::<(usize, Atom)>::empty());
        } else {
            let v = choose|v: Atom| inner[k] == #[trigger] assigned(mm, k, v, sc);
            if mm.contains_key(k) {
                match mm[k] {
                    StoredV::Global(_) => {
                        assert(m.contains_key(k) && m[k] is Global);
                        assert(e[k] == StoredV::Global(v));
                        assert(e[k] == assigned(m, k, v, cs));
                    },
                    StoredV::Locals(s0) => {
                        assert(locals_ok(mm[k], c + 1));
                        lemma_update_keeps_outer(s0, v, c);
                    },
                }
            } else {
                let t = seq![(sc, v)];
                assert(t.drop_last() =~= Seq::<(usize, Atom)>::empty());
                assert(keep_upto(t, c) == keep_upto(t.drop_last(), c));
                assert(keep_upto(t, c) =~= Seq::<(usize, Atom)>::empty());
            }
        }
    }
    assert forall|k: Seq<char>| m.contains_key(k) && m[k] is Global implies #[trigger] e[k] == inner[k] && inner[k] is Global by {
        assert(mm[k] == m[k]);
        assert(inner.contains_key(k));
        if !(inner[k] == mm[k]) {
            let v = choose|v: Atom| inner[k] == #[trigger] assigned(mm, k, v, sc);
        }
    }
}

/// Assigning a name in `scope` is a scoped change.
pub proof fn lemma_scoped_change_insert(a: Map<Seq<char>, StoredV>, k: Seq<char>, v: Atom, scope: usize)
    ensures
        scoped_change(a, st_insert(a, k, v, scope), scope),
{
    let b = st_insert(a, k, v, scope);
    assert forall|j: Seq<char>| #[trigger] b.contains_key(j) implies ((a.contains_key(j) && b[j] == a[j]) || (!a.contains_key(j)
        && b[j] == StoredV::Locals(Seq::empty())) || exists|w: Atom| b[j] == assigned(a, j, w, scope)) by {
        if j == k {
            assert(b[j] == assigned(a, j, v, scope));
        }
    }
}

/// Two scoped changes in the same scope make one.
pub proof fn lemma_scoped_change_trans(
    a: Map<Seq<char>, StoredV>,
    b: Map<Seq<char>, StoredV>,
    c: Map<Seq<char>, StoredV>,
    scope: usize,
)
    requires
        scoped_change(a, b, scope),
        scoped_change(b, c, scope),
    ensures
        scoped_change(a, c, scope),
{
    assert forall|k: Seq<char>| #[trigger] c.contains_key(k) implies ((a.contains_key(k) && c[k] == a[k]) || (
    !a.contains_key(k) && c[k] == StoredV::Locals(Seq::empty())) || exists|w: Atom| c[k] == assigned(a, k, w, scope)) by {
        if b.contains_key(k) && c[k] == b[k] {
            if !(a.contains_key(k) && b[k] == a[k]) && !(!a.contains_key(k) && b[k] == StoredV::Locals(
                Seq::empty(),
            )) {
                let v1 = choose|v1: Atom| b[k] == assigned(a, k, v1, scope);
                assert(c[k] == assigned(a, k, v1, scope));
            }
        } else if !b.contains_key(k) && c[k] == StoredV::Locals(Seq::empty()) {
            assert(!a.contains_key(k));
        } else {
            let v2 = choose|v2: Atom| c[k] == assigned(b, k, v2, scope);
            if b.contains_key(k) {
                if a.contains_key(k) && b[k] == a[k] {
                    assert(assigned(b, k, v2, scope) == assigned(a, k, v2, scope));
                } else if !a.contains_key(k) && b[k] == StoredV::Locals(Seq::empty()) {
                    assert(Seq::<(usize, Atom)>::empty().push((scope, v2)) =~= seq![(scope, v2)]);
                    assert(assigned(b, k, v2, scope) == assigned(a, k, v2, scope));
                } else {
                    let v1 = choose|v1: Atom| b[k] == assigned(a, k, v1, scope);
                    lemma_assigned_twice(a, b, k, v1, v2, scope);
                }
            } else {
                assert(!a.contains_key(k));
                assert(assigned(b, k, v2, scope) == assigned(a, k, v2, scope));
            }
            assert(c[k] == assigned(a, k, v2, scope));
        }
    }
}

/// Assigning parameters that are not global in a new scope, then making any
/// scoped change there, and leaving the scope again, gives every name that
/// was not global the value it had.
pub proof fn law_scoped_change_restores(
    m: Map<Seq<char>, StoredV>,
    c: nat,
    ks: Seq<(Seq<char>, Atom)>,
    inner: Map<Seq<char>, StoredV>,
    j: Seq<char>,
)
    requires
        scopes_ok(m, c),
        c + 1 <= usize::MAX,
        forall|i: int| 0 <= i < ks.len() ==> !(m.contains_key((#[trigger] ks[i]).0) && m[ks[i].0] is Global),
        scoped_change(st_insert_all(m, ks, (c + 1) as usize), inner, (c + 1) as usize),
        !(m.contains_key(j) && m[j] is Global),
    ensures
        st_lookup(st_end_scope(inner, (c + 1) as usize), j) == st_lookup(m, j),
{
    let sc = (c + 1) as usize;
    let mm = st_insert_all(m, ks, sc);
    assert(scopes_ok(m, c + 1)) by {
        assert forall|x: Seq<char>| #[trigger] m.contains_key(x) implies locals_ok(m[x], c + 1) by {
            assert(locals_ok(m[x], c));
        }
    }
    lemma_insert_all_outer(m, c, ks, j);
    assert(scopes_ok(inner, c + 1)) by {
        assert forall|x: Seq<char>| #[trigger] inner.contains_key(x) implies locals_ok(inner[x], c + 1) by {
            if !(mm.contains_key(x) && inner[x] == mm[x]) && !(!mm.contains_key(x) && inner[x] == StoredV::Locals(
                Seq::empty(),
            )) {
                let v = choose|v: Atom| inner[x] == #[trigger] assigned(mm, x, v, sc);
                if mm.contains_key(x) {
                    lemma_update_locals_ok(mm[x], v, (c + 1) as usize);
                }
            }
        }
    }
    law_end_scope_is_outer(inner, c);
    if inner.contains_key(j) {
        if !mm.contains_key(j) && inner[j] == StoredV::Locals(Seq::empty()) {
            assert(keep_upto(Seq::<(usize, Atom)>::empty(), c) =~= Seq::<(usize, Atom)>::empty());
            assert(!m.contains_key(j)) by {
                if m.contains_key(j) {
                    lemma_insert_all_keeps_keys(m, ks, sc, j);
                }
            }
        } else if !(mm.contains_key(j) && inner[j] == mm[j]) {
            let v = choose|v: Atom| inner[j] == #[trigger] assigned(mm, j, v, sc);
            law_insert_keeps_outer(mm, c, j, v, j);
            assert(outer(inner, c)[j] == outer(st_insert(mm, j, v, (c + 1) as usize), c)[j]);
        } else {
            assert(outer(inner, c)[j] == outer(mm, c)[j]);
        }
    }
    law_outer_current(m, c);
}

/// The bindings of a well-scoped storage are well scoped in its scope.
pub proof fn lemma_well_scoped(s: &Storage)
    requires
        s.well_scoped(),
    ensures
        scopes_ok(s@, s.scope()),
{
}

/// A global keeps a value assigned to it inside a scope after the scope ends.
pub proof fn law_global_survives_scope(m: Map<Seq<char>, StoredV>, c: nat, k: Seq<char>, v: Atom)
    requires
        m.contains_key(k),
        m[k] is Global,
        c + 1 <= usize::MAX,
    ensures
        st_lookup(st_end_scope(st_insert(m, k, v, (c + 1) as usize), (c + 1) as usize), k) == Some(v),
{
}

} // verus!
