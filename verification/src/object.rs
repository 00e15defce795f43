//! Objects: named fields kept sorted by name, each name once.

use crate::atom::{Atom, Object};
use crate::text::chars_of;
use std::rc::Rc;
use vstd::prelude::*;

verus! {

/// Lexicographic order of character sequences (the order of `String`).
pub open spec fn chars_lt(a: Seq<char>, b: Seq<char>) -> bool
    decreases a.len(),
{
    if a.len() == 0 {
        b.len() > 0
    } else if b.len() == 0 {
        false
    } else if a[0] < b[0] {
        true
    } else if a[0] == b[0] {
        chars_lt(a.drop_first(), b.drop_first())
    } else {
        false
    }
}

/// No sequence is less than itself.
pub proof fn lemma_chars_lt_irreflexive(a: Seq<char>)
    ensures
        !chars_lt(a, a),
    decreases a.len(),
{
    if a.len() > 0 {
        lemma_chars_lt_irreflexive(a.drop_first());
    }
}

/// The order is transitive.
pub proof fn lemma_chars_lt_transitive(a: Seq<char>, b: Seq<char>, c: Seq<char>)
    requires
        chars_lt(a, b),
        chars_lt(b, c),
    ensures
        chars_lt(a, c),
    decreases a.len(),
{
    if a.len() > 0 && b.len() > 0 && c.len() > 0 {
        if a[0] == b[0] && b[0] == c[0] {
            lemma_chars_lt_transitive(a.drop_first(), b.drop_first(), c.drop_first());
        }
    }
}

/// The order is total: two different sequences are ordered one way or the other.
pub proof fn lemma_chars_lt_total(a: Seq<char>, b: Seq<char>)
    ensures
        a == b || chars_lt(a, b) || chars_lt(b, a),
    decreases a.len(),
{
    if a.len() > 0 && b.len() > 0 && a[0] == b[0] {
        lemma_chars_lt_total(a.drop_first(), b.drop_first());
        if a.drop_first() == b.drop_first() {
            assert(a =~= seq![a[0]] + a.drop_first());
            assert(b =~= seq![b[0]] + b.drop_first());
        }
    } else if a.len() == 0 && b.len() == 0 {
        assert(a =~= b);
    }
}

/// Lexicographic comparison of two character sequences.
pub fn chars_less(a: &Vec<char>, b: &Vec<char>) -> (r: bool)
    ensures
        r == chars_lt(a@, b@),
{
    let mut i: usize = 0;
    assert(a@.skip(0) =~= a@);
    assert(b@.skip(0) =~= b@);
    while i < a.len() && i < b.len()
        invariant
            0 <= i <= a@.len(),
            i <= b@.len(),
            chars_lt(a@, b@) == chars_lt(a@.skip(i as int), b@.skip(i as int)),
        decreases a@.len() - i,
    {
        let ghost sa = a@.skip(i as int);
        let ghost sb = b@.skip(i as int);
        assert(sa.drop_first() =~= a@.skip(i + 1));
        assert(sb.drop_first() =~= b@.skip(i + 1));
        if a[i] < b[i] {
            return true;
        }
        if a[i] != b[i] {
            return false;
        }
        i = i + 1;
    }
    i == a.len() && i < b.len()
}

/// The fields are strictly sorted by name, so each name occurs once.
pub open spec fn keys_sorted(s: Seq<(String, Atom)>) -> bool {
    forall|i: int, j: int| 0 <= i < j < s.len() ==> chars_lt(#[trigger] s[i].0@, #[trigger] s[j].0@)
}

/// The value of the field named `k`, if there is one.
pub open spec fn field_lookup(s: Seq<(String, Atom)>, k: Seq<char>) -> Option<Atom> {
    if exists|i: int| 0 <= i < s.len() && #[trigger] s[i].0@ == k {
        let i = choose|i: int| 0 <= i < s.len() && #[trigger] s[i].0@ == k;
        Some(s[i].1)
    } else {
        None
    }
}

/// The value given last to the name `k` in a list of fields.
pub open spec fn last_value(s: Seq<(String, Atom)>, k: Seq<char>) -> Option<Atom>
    decreases s.len(),
{
    if s.len() == 0 {
        None
    } else if s.last().0@ == k {
        Some(s.last().1)
    } else {
        last_value(s.drop_last(), k)
    }
}

/// In sorted fields, a name found at index `i` is found only there.
pub proof fn lemma_lookup_at(s: Seq<(String, Atom)>, i: int)
    requires
        keys_sorted(s),
        0 <= i < s.len(),
    ensures
        field_lookup(s, s[i].0@) == Some(s[i].1),
{
    let k = s[i].0@;
    assert(0 <= i < s.len() && s[i].0@ == k);
    let j = choose|j: int| 0 <= j < s.len() && #[trigger] s[j].0@ == k;
    lemma_chars_lt_irreflexive(k);
    if j < i {
        assert(chars_lt(s[j].0@, s[i].0@));
    } else if j > i {
        assert(chars_lt(s[i].0@, s[j].0@));
    }
    assert(j == i);
}

/// Inserts a field into sorted fields, replacing the value of a field of the same name.
pub fn insert_field(v: &mut Vec<(String, Atom)>, k: String, x: Atom)
    requires
        keys_sorted(old(v)@),
    ensures
        keys_sorted(final(v)@),
        forall|key: Seq<char>|
            #[trigger] field_lookup(final(v)@, key) == if key == k@ {
                Some(x)
            } else {
                field_lookup(old(v)@, key)
            },
{
    let kc = chars_of(k.as_str());
    let mut i: usize = 0;
    loop
        invariant
            0 <= i <= v@.len(),
            v@ == old(v)@,
            kc@ == k@,
            keys_sorted(v@),
            forall|j: int| 0 <= j < i ==> chars_lt(#[trigger] v@[j].0@, k@),
        ensures
            0 <= i <= v@.len(),
            v@ == old(v)@,
            kc@ == k@,
            keys_sorted(v@),
            forall|j: int| 0 <= j < i ==> chars_lt(#[trigger] v@[j].0@, k@),
            i < v@.len() ==> chars_lt(k@, v@[i as int].0@),
        decreases v@.len() - i,
    {
        if i >= v.len() {
            break;
        }
        let ic = chars_of(v[i].0.as_str());
        if crate::text::chars_eq(&ic, &kc) {
            let ghost old_v = v@;
            v.set(i, (k, x));
            proof {
                assert forall|a: int, b: int| 0 <= a < b < v@.len() implies chars_lt(
                    #[trigger] v@[a].0@,
                    #[trigger] v@[b].0@,
                ) by {
                    assert(chars_lt(old_v[a].0@, old_v[b].0@));
                }
                assert forall|key: Seq<char>|
                    #[trigger] field_lookup(v@, key) == if key == k@ {
                        Some(x)
                    } else {
                        field_lookup(old(v)@, key)
                    } by {
                    if key == k@ {
                        lemma_lookup_at(v@, i as int);
                    } else {
                        if exists|j: int| 0 <= j < v@.len() && #[trigger] v@[j].0@ == key {
                            let j = choose|j: int| 0 <= j < v@.len() && #[trigger] v@[j].0@ == key;
                            lemma_lookup_at(v@, j);
                            lemma_lookup_at(old_v, j);
                        } else {
                            assert(!exists|j: int| 0 <= j < old_v.len() && #[trigger] old_v[j].0@ == key) by {
                                if exists|j: int| 0 <= j < old_v.len() && #[trigger] old_v[j].0@ == key {
                                    let j = choose|j: int| 0 <= j < old_v.len() && #[trigger] old_v[j].0@ == key;
                                    assert(v@[j].0@ == key);
                                }
                            }
                        }
                    }
                }
            }
            return;
        }
        if chars_less(&kc, &ic) {
            break;
        }
        proof {
            lemma_chars_lt_total(ic@, kc@);
        }
        i = i + 1;
    }
    let ghost old_v = v@;
    let ghost pos = i as int;
    proof {
        if pos < old_v.len() {
            assert(chars_lt(k@, old_v[pos].0@));
        }
    }
    v.insert(i, (k, x));
    proof {
        assert(v@ =~= old_v.insert(pos, (k, x)));
        assert forall|a: int, b: int| 0 <= a < b < v@.len() implies chars_lt(
            #[trigger] v@[a].0@,
            #[trigger] v@[b].0@,
        ) by {
            if a < pos && b < pos {
                assert(chars_lt(old_v[a].0@, old_v[b].0@));
            } else if a < pos && b == pos {
            } else if a < pos && b > pos {
                assert(chars_lt(old_v[a].0@, old_v[b - 1].0@));
            } else if a == pos {
                if b - 1 > pos {
                    assert(chars_lt(old_v[pos].0@, old_v[b - 1].0@));
                    lemma_chars_lt_transitive(k@, old_v[pos].0@, old_v[b - 1].0@);
                }
            } else {
                assert(chars_lt(old_v[a - 1].0@, old_v[b - 1].0@));
            }
        }
        assert forall|key: Seq<char>|
            #[trigger] field_lookup(v@, key) == if key == k@ {
                Some(x)
            } else {
                field_lookup(old(v)@, key)
            } by {
            if key == k@ {
                lemma_lookup_at(v@, pos);
            } else {
                if exists|j: int| 0 <= j < v@.len() && #[trigger] v@[j].0@ == key {
                    let j = choose|j: int| 0 <= j < v@.len() && #[trigger] v@[j].0@ == key;
                    lemma_lookup_at(v@, j);
                    if j < pos {
                        lemma_lookup_at(old_v, j);
                    } else {
                        assert(j != pos);
                        lemma_lookup_at(old_v, j - 1);
                    }
                } else {
                    assert(!exists|j: int| 0 <= j < old_v.len() && #[trigger] old_v[j].0@ == key) by {
                        if exists|j: int| 0 <= j < old_v.len() && #[trigger] old_v[j].0@ == key {
                            let j = choose|j: int| 0 <= j < old_v.len() && #[trigger] old_v[j].0@ == key;
                            if j < pos {
                                assert(v@[j].0@ == key);
                            } else {
                                assert(v@[j + 1].0@ == key);
                            }
                        }
                    }
                }
            }
        }
    }
}

impl Object {
    /// The type id.
    pub fn ty_id(&self) -> (t: i64)
        ensures
            t == self.ty_id,
    {
        self.ty_id
    }

    /// A copy of the fields, sorted by name.
    pub fn fields(&self) -> (v: Vec<(String, Atom)>)
        ensures
            v@ == self.data@,
    {
        let mut v: Vec<(String, Atom)> = Vec::new();
        let mut i: usize = 0;
        while i < self.data.len()
            invariant
                0 <= i <= self.data@.len(),
                v@ == self.data@.take(i as int),
            decreases self.data@.len() - i,
        {
            v.push((self.data[i].0.clone(), self.data[i].1.clone()));
            i = i + 1;
            assert(v@ =~= self.data@.take(i as int));
        }
        assert(self.data@.take(self.data@.len() as int) =~= self.data@);
        v
    }

    /// Constructs an object from fields and a type id. When a name is given
    /// more than once, the last value given to it is kept.
    pub fn new(data: Vec<(String, Atom)>, ty_id: i64) -> (o: Object)
        ensures
            o.ty_id == ty_id,
            keys_sorted(o.data@),
            forall|k: Seq<char>| #[trigger] field_lookup(o.data@, k) == last_value(data@, k),
    {
        let mut v: Vec<(String, Atom)> = Vec::new();
        let mut i: usize = 0;
        while i < data.len()
            invariant
                0 <= i <= data@.len(),
                keys_sorted(v@),
                forall|k: Seq<char>| #[trigger] field_lookup(v@, k) == last_value(data@.take(i as int), k),
            decreases data@.len() - i,
        {
            let (k, x) = (data[i].0.clone(), data[i].1.clone());
            insert_field(&mut v, k, x);
            i = i + 1;
            proof {
                assert forall|key: Seq<char>| #[trigger] field_lookup(v@, key) == last_value(data@.take(i as int), key) by {
                    assert(data@.take(i as int).drop_last() =~= data@.take(i - 1));
                }
            }
        }
        assert(data@.take(data@.len() as int) =~= data@);
        Object { data: Rc::new(v), ty_id }
    }

    /// The value of the field named `field`, if there is one.
    pub fn get(&self, field: &str) -> (r: Option<&Atom>)
        ensures
            keys_sorted(self.data@) ==> match r {
                Some(a) => field_lookup(self.data@, field@) == Some(*a),
                None => field_lookup(self.data@, field@).is_none(),
            },
    {
        let fc = chars_of(field);
        let mut i: usize = 0;
        while i < self.data.len()
            invariant
                0 <= i <= self.data@.len(),
                fc@ == field@,
                forall|j: int| 0 <= j < i ==> (#[trigger] self.data@[j]).0@ != field@,
            decreases self.data@.len() - i,
        {
            let ic = chars_of(self.data[i].0.as_str());
            if crate::text::chars_eq(&ic, &fc) {
                proof {
                    if keys_sorted(self.data@) {
                        lemma_lookup_at(self.data@, i as int);
                    }
                }
                return Some(&self.data[i].1);
            }
            i = i + 1;
        }
        None
    }

    /// A copy of this object with the field `field` set to `value`, or `None`
    /// if it has no such field.
    pub fn with_field(&self, field: &str, value: Atom) -> (r: Option<Object>)
        ensures
            keys_sorted(self.data@) ==> match r {
                Some(o) => {
                    &&& field_lookup(self.data@, field@).is_some()
                    &&& o.ty_id == self.ty_id
                    &&& keys_sorted(o.data@)
                    &&& forall|k: Seq<char>|
                        #[trigger] field_lookup(o.data@, k) == if k == field@ {
                            Some(value)
                        } else {
                            field_lookup(self.data@, k)
                        }
                },
                None => field_lookup(self.data@, field@).is_none(),
            },
    {
        let fc = chars_of(field);
        let mut i: usize = 0;
        while i < self.data.len()
            invariant
                0 <= i <= self.data@.len(),
                fc@ == field@,
                forall|j: int| 0 <= j < i ==> (#[trigger] self.data@[j]).0@ != field@,
            decreases self.data@.len() - i,
        {
            let ic = chars_of(self.data[i].0.as_str());
            if crate::text::chars_eq(&ic, &fc) {
                let mut v: Vec<(String, Atom)> = Vec::new();
                let mut j: usize = 0;
                while j < self.data.len()
                    invariant
                        0 <= j <= self.data@.len(),
                        v@ == self.data@.take(j as int),
                    decreases self.data@.len() - j,
                {
                    v.push((self.data[j].0.clone(), self.data[j].1.clone()));
                    j = j + 1;
                    assert(v@ =~= self.data@.take(j as int));
                }
                assert(self.data@.take(self.data@.len() as int) =~= self.data@);
                let name = self.data[i].0.clone();
                v.set(i, (name, value));
                let ghost s = self.data@;
                let ghost t = v@;
                proof {
                    assert(t =~= s.update(i as int, (s[i as int].0, value)));
                    if keys_sorted(s) {
                        assert(keys_sorted(t)) by {
                            assert forall|a: int, b: int| 0 <= a < b < t.len() implies chars_lt(
                                #[trigger] t[a].0@,
                                #[trigger] t[b].0@,
                            ) by {
                                assert(t[a].0@ == s[a].0@ && t[b].0@ == s[b].0@);
                            }
                        }
                        lemma_lookup_at(t, i as int);
                        assert forall|k: Seq<char>| k != field@ implies #[trigger] field_lookup(t, k)
                            == field_lookup(s, k) by {
                            if exists|a: int| 0 <= a < s.len() && #[trigger] s[a].0@ == k {
                                let a = choose|a: int| 0 <= a < s.len() && #[trigger] s[a].0@ == k;
                                assert(a != i);
                                lemma_lookup_at(s, a);
                                assert(t[a] == s[a]);
                                lemma_lookup_at(t, a);
                            } else {
                                assert forall|a: int| 0 <= a < t.len() implies #[trigger] t[a].0@ != k by {
                                    assert(t[a].0@ == s[a].0@);
                                }
                            }
                        }
                        lemma_lookup_at(s, i as int);
                    }
                }
                return Some(Object { data: Rc::new(v), ty_id: self.ty_id });
            }
            i = i + 1;
        }
        None
    }
}

} // verus!
