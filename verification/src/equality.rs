//! Equality of values, as the language's `==` sees it.

use crate::atom::{
    Atom,
    AtomV,
    atom_size,
    atoms_size,
    atoms_view,
    entries_view,
    fields_size,
    lemma_atoms_size,
    lemma_atoms_view,
    lemma_entries_view,
    lemma_fields_size,
};
use crate::text::{chars_eq, chars_of};
use vstd::prelude::*;

verus! {

/// Whether two values are equal: integers, booleans, characters and `null`
/// by value, lists element by element, objects by type id and fields; a
/// function equals nothing, not even itself.
pub open spec fn atom_eq(a: AtomV, b: AtomV) -> bool
    decreases atom_size(a), 0nat,
{
    match a {
        AtomV::List(s) => match b {
            AtomV::List(t) => s.len() == t.len() && list_eq(s, t, s.len()),
            _ => false,
        },
        AtomV::Object(e, i) => match b {
            AtomV::Object(f, j) => i == j && e.len() == f.len() && fields_eq(e, f, e.len()),
            _ => false,
        },
        AtomV::Function(_) => false,
        _ => a == b,
    }
}

/// Whether the first `n` elements of two lists are pairwise equal.
pub open spec fn list_eq(s: Seq<AtomV>, t: Seq<AtomV>, n: nat) -> bool
    decreases atoms_size(s, n), 1nat,
{
    if n == 0 || n > s.len() || n > t.len() {
        n == 0
    } else {
        proof {
            lemma_atoms_size(s, n, n - 1);
        }
        list_eq(s, t, (n - 1) as nat) && atom_eq(s[n - 1], t[n - 1])
    }
}

/// Whether the first `n` fields of two objects have the same names and
/// equal values.
pub open spec fn fields_eq(e: Seq<(Seq<char>, AtomV)>, f: Seq<(Seq<char>, AtomV)>, n: nat) -> bool
    decreases fields_size(e, n), 1nat,
{
    if n == 0 || n > e.len() || n > f.len() {
        n == 0
    } else {
        proof {
            lemma_fields_size(e, n, n - 1);
        }
        fields_eq(e, f, (n - 1) as nat) && e[n - 1].0 == f[n - 1].0 && atom_eq(e[n - 1].1, f[n - 1].1)
    }
}

/// Equal lists have equal elements at every index.
proof fn lemma_list_eq_at(s: Seq<AtomV>, t: Seq<AtomV>, n: nat, k: int)
    requires
        list_eq(s, t, n),
        0 <= k < n,
        n <= s.len(),
        n <= t.len(),
    ensures
        atom_eq(s[k], t[k]),
    decreases n,
{
    if k < n - 1 {
        lemma_list_eq_at(s, t, (n - 1) as nat, k);
    }
}

/// Equal fields have the same names and equal values at every index.
proof fn lemma_fields_eq_at(e: Seq<(Seq<char>, AtomV)>, f: Seq<(Seq<char>, AtomV)>, n: nat, k: int)
    requires
        fields_eq(e, f, n),
        0 <= k < n,
        n <= e.len(),
        n <= f.len(),
    ensures
        e[k].0 == f[k].0,
        atom_eq(e[k].1, f[k].1),
    decreases n,
{
    if k < n - 1 {
        lemma_fields_eq_at(e, f, (n - 1) as nat, k);
    }
}

/// Pairwise equal elements make equal prefixes.
proof fn lemma_list_eq_from(s: Seq<AtomV>, t: Seq<AtomV>, n: nat)
    requires
        n <= s.len(),
        n <= t.len(),
        forall|k: int| 0 <= k < n ==> atom_eq(#[trigger] s[k], t[k]),
    ensures
        list_eq(s, t, n),
    decreases n,
{
    if n > 0 {
        lemma_list_eq_from(s, t, (n - 1) as nat);
    }
}

/// Two lists are equal exactly when they have the same length and equal
/// elements at every index.
pub proof fn law_list_equality_elementwise(s: Seq<AtomV>, t: Seq<AtomV>)
    ensures
        atom_eq(AtomV::List(s), AtomV::List(t)) <==> (s.len() == t.len() && forall|k: int|
            0 <= k < s.len() ==> atom_eq(#[trigger] s[k], t[k])),
{
    if atom_eq(AtomV::List(s), AtomV::List(t)) {
        assert forall|k: int| 0 <= k < s.len() implies atom_eq(#[trigger] s[k], t[k]) by {
            lemma_list_eq_at(s, t, s.len(), k);
        }
    }
    if s.len() == t.len() && forall|k: int| 0 <= k < s.len() ==> atom_eq(#[trigger] s[k], t[k]) {
        lemma_list_eq_from(s, t, s.len());
    }
}

/// Integers, booleans and characters are equal exactly when they are the same.
pub proof fn law_scalar_equality(x: i64, y: i64, b: bool, c: bool, p: char, q: char)
    ensures
        atom_eq(AtomV::Int(x), AtomV::Int(y)) <==> x == y,
        atom_eq(AtomV::Bool(b), AtomV::Bool(c)) <==> b == c,
        atom_eq(AtomV::Char(p), AtomV::Char(q)) <==> p == q,
{
}

/// Lists of integers that differ at some index are not equal.
pub proof fn law_lists_differing_somewhere(s: Seq<i64>, t: Seq<i64>, k: int)
    requires
        s.len() == t.len(),
        0 <= k < s.len(),
        s[k] != t[k],
    ensures
        !atom_eq(
            AtomV::List(s.map_values(|x: i64| AtomV::Int(x))),
            AtomV::List(t.map_values(|x: i64| AtomV::Int(x))),
        ),
{
    let a = s.map_values(|x: i64| AtomV::Int(x));
    let b = t.map_values(|x: i64| AtomV::Int(x));
    law_list_equality_elementwise(a, b);
    assert(!atom_eq(a[k], b[k]));
}

/// Pairwise equal fields make equal prefixes.
proof fn lemma_fields_eq_from(e: Seq<(Seq<char>, AtomV)>, f: Seq<(Seq<char>, AtomV)>, n: nat)
    requires
        n <= e.len(),
        n <= f.len(),
        forall|k: int| 0 <= k < n ==> (#[trigger] e[k]).0 == f[k].0 && atom_eq(e[k].1, f[k].1),
    ensures
        fields_eq(e, f, n),
    decreases n,
{
    if n > 0 {
        lemma_fields_eq_from(e, f, (n - 1) as nat);
    }
}

/// Two objects are equal exactly when they have the same type id and, field
/// by field, the same names and equal values; a function equals nothing, and
/// values of different kinds are never equal.
pub proof fn law_object_and_kind_equality(
    e: Seq<(Seq<char>, AtomV)>,
    f: Seq<(Seq<char>, AtomV)>,
    i: i64,
    j: i64,
    v: AtomV,
    w: AtomV,
)
    ensures
        atom_eq(AtomV::Object(e, i), AtomV::Object(f, j)) <==> (i == j && e.len() == f.len() && forall|k: int|
            0 <= k < e.len() ==> (#[trigger] e[k]).0 == f[k].0 && atom_eq(e[k].1, f[k].1)),
        v is Function ==> !atom_eq(v, w) && !atom_eq(w, v),
        atom_eq(v, w) ==> (v is Int <==> w is Int) && (v is Bool <==> w is Bool) && (v is Char <==> w is Char) && (
        v is Null <==> w is Null) && (v is List <==> w is List) && (v is Object <==> w is Object),
        atom_eq(AtomV::Null, AtomV::Null),
{
    if atom_eq(AtomV::Object(e, i), AtomV::Object(f, j)) {
        assert forall|k: int| 0 <= k < e.len() implies (#[trigger] e[k]).0 == f[k].0 && atom_eq(e[k].1, f[k].1) by {
            lemma_fields_eq_at(e, f, e.len(), k);
        }
    }
    if i == j && e.len() == f.len() && forall|k: int|
        0 <= k < e.len() ==> (#[trigger] e[k]).0 == f[k].0 && atom_eq(e[k].1, f[k].1) {
        lemma_fields_eq_from(e, f, e.len());
    }
}

/// Whether two values are equal (see [`atom_eq`]).
pub fn atoms_equal(a: &Atom, b: &Atom) -> (r: bool)
    ensures
        r == atom_eq(a@, b@),
    decreases atom_size(a@),
{
    match (a, b) {
        (Atom::Int(x), Atom::Int(y)) => *x == *y,
        (Atom::Bool(x), Atom::Bool(y)) => *x == *y,
        (Atom::Char(x), Atom::Char(y)) => *x == *y,
        (Atom::Null, Atom::Null) => true,
        (Atom::List(l), Atom::List(m)) => {
            let ghost s = a@->List_0;
            let ghost t = b@->List_0;
            proof {
                lemma_atoms_view(l.0@, l.0@.len());
                lemma_atoms_view(m.0@, m.0@.len());
            }
            if l.len() != m.len() {
                return false;
            }
            let mut i: usize = 0;
            while i < l.len()
                invariant
                    s == atoms_view(l.0@, l.0@.len()),
                    t == atoms_view(m.0@, m.0@.len()),
                    s.len() == l.0@.len() == t.len() == m.0@.len(),
                    forall|k: int| 0 <= k < s.len() ==> #[trigger] s[k] == l.0@[k]@,
                    forall|k: int| 0 <= k < t.len() ==> #[trigger] t[k] == m.0@[k]@,
                    atom_size(a@) == 1 + atoms_size(s, s.len()),
                    a@ == AtomV::List(s),
                    b@ == AtomV::List(t),
                    0 <= i <= l.0@.len(),
                    list_eq(s, t, i as nat),
                decreases l.0@.len() - i,
            {
                proof {
                    lemma_atoms_size(s, s.len(), i as int);
                }
                if !atoms_equal(l.get(i), m.get(i)) {
                    proof {
                        if atom_eq(a@, b@) {
                            lemma_list_eq_at(s, t, s.len(), i as int);
                        }
                    }
                    return false;
                }
                i = i + 1;
            }
            true
        },
        (Atom::Object(o), Atom::Object(p)) => {
            let ghost e = a@->Object_0;
            let ghost f = b@->Object_0;
            proof {
                lemma_entries_view(o.data@, o.data@.len());
                lemma_entries_view(p.data@, p.data@.len());
            }
            if o.ty_id != p.ty_id || o.data.len() != p.data.len() {
                return false;
            }
            let mut i: usize = 0;
            while i < o.data.len()
                invariant
                    e == entries_view(o.data@, o.data@.len()),
                    f == entries_view(p.data@, p.data@.len()),
                    e.len() == o.data@.len() == f.len() == p.data@.len(),
                    forall|k: int|
                        0 <= k < e.len() ==> #[trigger] e[k] == (o.data@[k].0@, o.data@[k].1@),
                    forall|k: int|
                        0 <= k < f.len() ==> #[trigger] f[k] == (p.data@[k].0@, p.data@[k].1@),
                    atom_size(a@) == 1 + fields_size(e, e.len()),
                    a@ == AtomV::Object(e, o.ty_id),
                    b@ == AtomV::Object(f, p.ty_id),
                    o.ty_id == p.ty_id,
                    0 <= i <= o.data@.len(),
                    fields_eq(e, f, i as nat),
                decreases o.data@.len() - i,
            {
                proof {
                    lemma_fields_size(e, e.len(), i as int);
                }
                let kn = chars_of(o.data[i].0.as_str());
                let kp = chars_of(p.data[i].0.as_str());
                if !chars_eq(&kn, &kp) {
                    proof {
                        if atom_eq(a@, b@) {
                            lemma_fields_eq_at(e, f, e.len(), i as int);
                        }
                    }
                    return false;
                }
                if !atoms_equal(&o.data[i].1, &p.data[i].1) {
                    proof {
                        if atom_eq(a@, b@) {
                            lemma_fields_eq_at(e, f, e.len(), i as int);
                        }
                    }
                    return false;
                }
                i = i + 1;
            }
            true
        },
        _ => {
            proof {
                assert(!atom_eq(a@, b@));
            }
            false
        },
    }
}

/// Equality of values is symmetric: `a` equals `b` exactly when `b` equals `a`.
pub proof fn law_atom_eq_symmetric(a: AtomV, b: AtomV)
    ensures
        atom_eq(a, b) == atom_eq(b, a),
    decreases atom_size(a), 0nat,
{
    match (a, b) {
        (AtomV::List(s), AtomV::List(t)) => {
            if s.len() == t.len() {
                lemma_list_eq_symmetric(s, t, s.len());
            }
        },
        (AtomV::Object(e, i), AtomV::Object(f, j)) => {
            if e.len() == f.len() {
                lemma_fields_eq_symmetric(e, f, e.len());
            }
        },
        _ => {},
    }
}

/// Pairwise equality of list prefixes is symmetric.
proof fn lemma_list_eq_symmetric(s: Seq<AtomV>, t: Seq<AtomV>, n: nat)
    requires
        s.len() == t.len(),
    ensures
        list_eq(s, t, n) == list_eq(t, s, n),
    decreases atoms_size(s, n), 1nat,
{
    if n > 0 && n <= s.len() {
        lemma_atoms_size(s, n, n - 1);
        lemma_list_eq_symmetric(s, t, (n - 1) as nat);
        law_atom_eq_symmetric(s[n - 1], t[n - 1]);
    }
}

/// Pairwise equality of field prefixes is symmetric.
proof fn lemma_fields_eq_symmetric(e: Seq<(Seq<char>, AtomV)>, f: Seq<(Seq<char>, AtomV)>, n: nat)
    requires
        e.len() == f.len(),
    ensures
        fields_eq(e, f, n) == fields_eq(f, e, n),
    decreases fields_size(e, n), 1nat,
{
    if n > 0 && n <= e.len() {
        lemma_fields_size(e, n, n - 1);
        lemma_fields_eq_symmetric(e, f, (n - 1) as nat);
        law_atom_eq_symmetric(e[n - 1].1, f[n - 1].1);
    }
}

} // verus!
