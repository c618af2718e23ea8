//! The event model: an ordered key-to-value field map.
//!
//! Every calendar event is a sequence of fields kept in insertion order,
//! so iteration and serialization are deterministic. Keys are unique;
//! writing to an existing key overwrites its value in place, writing to
//! a fresh key appends a new field at the end.

use vstd::prelude::*;
use crate::text::str_eq;

verus! {

/// The mathematical model of an event: its fields in insertion order,
/// each a key paired with a value.
pub type FieldSeq = Seq<(Seq<char>, Seq<char>)>;

/// True when the field map `m` holds a field named `k`.
pub open spec fn has_field(m: FieldSeq, k: Seq<char>) -> bool {
    exists|i: int| 0 <= i < m.len() && m[i].0 == k
}

/// An index of a field named `k`; under `wf_fields` the witness is unique.
pub open spec fn field_index(m: FieldSeq, k: Seq<char>) -> int {
    choose|i: int| 0 <= i < m.len() && m[i].0 == k
}

/// The value of the field named `k`, or the empty string when absent:
/// the rule engine treats a missing field as empty.
pub open spec fn field_value(m: FieldSeq, k: Seq<char>) -> Seq<char> {
    if has_field(m, k) {
        m[field_index(m, k)].1
    } else {
        Seq::empty()
    }
}

/// Field keys are pairwise distinct.
pub open spec fn wf_fields(m: FieldSeq) -> bool {
    forall|i: int, j: int| 0 <= i < j < m.len() ==> m[i].0 != m[j].0
}

/// The map after writing value `v` under key `k`: an existing field is
/// overwritten in place, a new one is appended at the end.
pub open spec fn store_field(m: FieldSeq, k: Seq<char>, v: Seq<char>) -> FieldSeq {
    if has_field(m, k) {
        m.update(field_index(m, k), (k, v))
    } else {
        m.push((k, v))
    }
}

/// Under unique keys, the field at index `i` is the one `field_value` reads.
pub proof fn lemma_field_value_at(m: FieldSeq, i: int)
    requires
        wf_fields(m),
        0 <= i < m.len(),
    ensures
        has_field(m, m[i].0),
        field_index(m, m[i].0) == i,
        field_value(m, m[i].0) == m[i].1,
{
    let k = m[i].0;
    assert(has_field(m, k));
    let j = field_index(m, k);
    if i < j {
        assert(m[i].0 != m[j].0);
    } else if j < i {
        assert(m[j].0 != m[i].0);
    }
}

/// What one write does to the map: unique keys are preserved, the written
/// key now holds `v`, and every other key keeps its presence and value.
pub proof fn lemma_store_field(m: FieldSeq, k: Seq<char>, v: Seq<char>)
    requires
        wf_fields(m),
    ensures
        wf_fields(store_field(m, k, v)),
        has_field(store_field(m, k, v), k),
        field_value(store_field(m, k, v), k) == v,
        forall|k2: Seq<char>| k2 != k ==> has_field(store_field(m, k, v), k2) == has_field(m, k2),
        forall|k2: Seq<char>| k2 != k ==> field_value(store_field(m, k, v), k2) == field_value(
            m,
            k2,
        ),
        store_field(m, k, v).len() == if has_field(m, k) {
            m.len()
        } else {
            m.len() + 1
        },
{
    let s = store_field(m, k, v);
    if has_field(m, k) {
        let i = field_index(m, k);
        assert(0 <= i < m.len() && m[i].0 == k);
        assert(s == m.update(i, (k, v)));
        assert forall|p: int, q: int| 0 <= p < q < s.len() implies s[p].0 != s[q].0 by {
            assert(m[p].0 != m[q].0);
        }
        assert(s[i].0 == k && s[i].1 == v);
        lemma_field_value_at(s, i);
        assert forall|k2: Seq<char>| k2 != k implies has_field(s, k2) == has_field(m, k2)
            && field_value(s, k2) == field_value(m, k2) by {
            if has_field(m, k2) {
                let j = field_index(m, k2);
                assert(j != i);
                assert(s[j].0 == k2 && s[j].1 == m[j].1);
                lemma_field_value_at(s, j);
                lemma_field_value_at(m, j);
            } else {
                if has_field(s, k2) {
                    let j = field_index(s, k2);
                    assert(j != i);
                    assert(m[j].0 == k2);
                }
            }
        }
    } else {
        assert(s == m.push((k, v)));
        assert forall|p: int, q: int| 0 <= p < q < s.len() implies s[p].0 != s[q].0 by {
            if q < m.len() {
                assert(m[p].0 != m[q].0);
            } else {
                assert(s[q].0 == k);
                assert(s[p].0 == m[p].0);
                assert(has_field(m, m[p].0)) by {
                    assert(0 <= p < m.len() && m[p].0 == m[p].0);
                }
            }
        }
        assert(s[m.len() as int].0 == k && s[m.len() as int].1 == v);
        lemma_field_value_at(s, m.len() as int);
        assert forall|k2: Seq<char>| k2 != k implies has_field(s, k2) == has_field(m, k2)
            && field_value(s, k2) == field_value(m, k2) by {
            if has_field(m, k2) {
                let j = field_index(m, k2);
                assert(s[j].0 == k2 && s[j].1 == m[j].1);
                lemma_field_value_at(s, j);
                lemma_field_value_at(m, j);
            } else {
                if has_field(s, k2) {
                    let j = field_index(s, k2);
                    if j < m.len() {
                        assert(m[j].0 == k2);
                    } else {
                        assert(s[j].0 == k);
                    }
                }
            }
        }
    }
}

/// One calendar event: its fields in insertion order.
#[derive(Clone)]
pub struct Event {
    pub fields: Vec<(String, String)>,
}

impl View for Event {
    type V = FieldSeq;

    open spec fn view(&self) -> FieldSeq {
        Seq::new(self.fields@.len(), |i: int| (self.fields@[i].0@, self.fields@[i].1@))
    }
}

impl Event {
    /// Keys are unique: the invariant every constructor establishes and
    /// every method preserves.
    pub open spec fn wf(&self) -> bool {
        wf_fields(self@)
    }

    /// An event with no fields.
    pub fn new() -> (e: Event)
        ensures
            e@ == Seq::<(Seq<char>, Seq<char>)>::empty(),
            e.wf(),
    {
        let e = Event { fields: Vec::new() };
        proof {
            assert(e@ =~= Seq::<(Seq<char>, Seq<char>)>::empty());
        }
        e
    }

    /// The position of the first field named `k`, if any.
    fn find_index(&self, k: &str) -> (r: Option<usize>)
        ensures
            match r {
                Some(i) => i < self@.len() && self@[i as int].0 == k@,
                None => !has_field(self@, k@),
            },
    {
        let n = self.fields.len();
        let mut i: usize = 0;
        while i < n
            invariant
                i <= n,
                n == self.fields@.len(),
                forall|j: int| 0 <= j < i ==> self@[j].0 != k@,
            decreases n - i,
        {
            if str_eq(self.fields[i].0.as_str(), k) {
                return Some(i);
            }
            i = i + 1;
        }
        None
    }

    /// The value of field `k`, when the event has one.
    pub fn get_field(&self, k: &str) -> (r: Option<&String>)
        requires
            self.wf(),
        ensures
            match r {
                Some(v) => has_field(self@, k@) && v@ == field_value(self@, k@),
                None => !has_field(self@, k@),
            },
    {
        match self.find_index(k) {
            Some(i) => {
                proof {
                    lemma_field_value_at(self@, i as int);
                }
                Some(&self.fields[i].1)
            },
            None => None,
        }
    }

    /// The value of field `k`, or the empty string when absent.
    pub fn field_or_empty(&self, k: &str) -> (r: String)
        requires
            self.wf(),
        ensures
            r@ == field_value(self@, k@),
    {
        match self.get_field(k) {
            Some(v) => v.clone(),
            None => String::new(),
        }
    }

    /// Writes value `v` under key `k`, overwriting in place or appending.
    pub fn set_field(&mut self, k: &str, v: String)
        requires
            old(self).wf(),
        ensures
            final(self).wf(),
            final(self)@ == store_field(old(self)@, k@, v@),
    {
        proof {
            lemma_store_field(old(self)@, k@, v@);
        }
        match self.find_index(k) {
            Some(i) => {
                proof {
                    lemma_field_value_at(self@, i as int);
                }
                self.fields[i] = (String::from_str(k), v);
                proof {
                    assert(final(self)@ =~= store_field(old(self)@, k@, v@));
                }
            },
            None => {
                self.fields.push((String::from_str(k), v));
                proof {
                    assert(final(self)@ =~= store_field(old(self)@, k@, v@));
                }
            },
        }
    }

    /// How many fields the event has.
    pub fn len(&self) -> (n: usize)
        ensures
            n == self@.len(),
    {
        self.fields.len()
    }

    /// A copy of the event whose model is the same field sequence.
    pub fn duplicate(&self) -> (r: Event)
        ensures
            r@ == self@,
    {
        let n = self.fields.len();
        let mut fields: Vec<(String, String)> = Vec::new();
        let mut i: usize = 0;
        while i < n
            invariant
                i <= n,
                n == self.fields@.len(),
                fields@.len() == i,
                forall|j: int|
                    0 <= j < i ==> (#[trigger] fields@[j]).0@ == self@[j].0 && fields@[j].1@
                        == self@[j].1,
            decreases n - i,
        {
            fields.push((self.fields[i].0.clone(), self.fields[i].1.clone()));
            i = i + 1;
        }
        let r = Event { fields };
        proof {
            assert(r@ =~= self@);
        }
        r
    }

    /// The field at position `i`, as a key-value pair.
    pub fn field_at(&self, i: usize) -> (r: (&String, &String))
        requires
            i < self@.len(),
        ensures
            r.0@ == self@[i as int].0,
            r.1@ == self@[i as int].1,
    {
        (&self.fields[i].0, &self.fields[i].1)
    }
}

} // verus!
