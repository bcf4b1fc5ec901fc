//! A map from names to values that keeps its entries in the order in which
//! the names first arrived.
//!
//! Both the blueprint set and the record under construction are such maps.
//! Walking them always visits the entries in the same order, so every
//! decision that picks "the first" of several candidates is reproducible.

use crate::text::lines_of;
use vstd::prelude::*;

verus! {

/// Some entry of `m` is filed under `name`.
pub open spec fn has_key<T>(m: Seq<(Seq<char>, T)>, name: Seq<char>) -> bool {
    exists|i: int| 0 <= i < m.len() && (#[trigger] m[i]).0 == name
}

/// No two entries of `m` share a name.
pub open spec fn keys_distinct<T>(m: Seq<(Seq<char>, T)>) -> bool {
    forall|i: int, j: int| 0 <= i < j < m.len() ==> (#[trigger] m[i]).0 != (#[trigger] m[j]).0
}

/// The names of `m`, in entry order.
pub open spec fn key_seq<T>(m: Seq<(Seq<char>, T)>) -> Seq<Seq<char>> {
    Seq::new(m.len(), |i: int| m[i].0)
}

/// The position of the entry filed under `name` (meaningful when there is one).
pub open spec fn position_of<T>(m: Seq<(Seq<char>, T)>, name: Seq<char>) -> int {
    choose|i: int| 0 <= i < m.len() && (#[trigger] m[i]).0 == name
}

/// The value filed under `name` (meaningful when there is one).
pub open spec fn value_of<T>(m: Seq<(Seq<char>, T)>, name: Seq<char>) -> T {
    m[position_of(m, name)].1
}

/// The map after `value` is filed under `name`: a name that is present keeps
/// its position and gets the new value, a new name goes to the end.
pub open spec fn with_entry<T>(m: Seq<(Seq<char>, T)>, name: Seq<char>, value: T) -> Seq<
    (Seq<char>, T),
> {
    if has_key(m, name) {
        m.update(position_of(m, name), (name, value))
    } else {
        m.push((name, value))
    }
}

/// The value of the first entry filed under `name`, if there is one.
pub open spec fn lookup<T>(m: Seq<(Seq<char>, T)>, name: Seq<char>) -> Option<T>
    decreases m.len(),
{
    if m.len() == 0 {
        None
    } else if m[0].0 == name {
        Some(m[0].1)
    } else {
        lookup(m.drop_first(), name)
    }
}

/// A lookup finds the first entry under the name after `i` entries under
/// other names.
pub proof fn lemma_lookup_skips<T>(m: Seq<(Seq<char>, T)>, name: Seq<char>, i: int)
    requires
        0 <= i <= m.len(),
        forall|j: int| 0 <= j < i ==> (#[trigger] m[j]).0 != name,
    ensures
        lookup(m, name) == lookup(m.skip(i), name),
        i < m.len() && m[i].0 == name ==> lookup(m, name) == Some(m[i].1),
        i == m.len() ==> lookup(m, name) is None,
    decreases i,
{
    if i == 0 {
        assert(m.skip(0) =~= m);
    } else {
        let rest = m.drop_first();
        assert(m[0].0 != name);
        assert forall|j: int| 0 <= j < i - 1 implies (#[trigger] rest[j]).0 != name by {
            assert(rest[j] == m[j + 1]);
        }
        lemma_lookup_skips(rest, name, i - 1);
        assert(rest.skip(i - 1) =~= m.skip(i));
        if i < m.len() {
            assert(rest[i - 1] == m[i]);
        }
    }
    if i < m.len() && m[i].0 == name {
        assert(m.skip(i)[0] == m[i]);
    }
}

/// A lookup finds something exactly under the names that are there, and with
/// distinct names it finds the value filed under the name.
pub proof fn lemma_lookup_has_key<T>(m: Seq<(Seq<char>, T)>, name: Seq<char>)
    ensures
        lookup(m, name) is Some <==> has_key(m, name),
        keys_distinct(m) && has_key(m, name) ==> lookup(m, name) == Some(value_of(m, name)),
    decreases m.len(),
{
    if m.len() > 0 {
        let rest = m.drop_first();
        lemma_lookup_has_key(rest, name);
        if has_key(m, name) {
            let i = choose|i: int| 0 <= i < m.len() && (#[trigger] m[i]).0 == name;
            if m[0].0 != name {
                assert(rest[i - 1] == m[i]);
                assert(has_key(rest, name));
            }
        }
        if has_key(rest, name) {
            let i = choose|i: int| 0 <= i < rest.len() && (#[trigger] rest[i]).0 == name;
            assert(m[i + 1] == rest[i]);
        }
        if keys_distinct(m) && has_key(m, name) {
            if m[0].0 == name {
                lemma_position_unique(m, 0);
            } else {
                assert forall|a: int, b: int| 0 <= a < b < rest.len() implies (
                #[trigger] rest[a]).0 != (#[trigger] rest[b]).0 by {
                    assert(m[a + 1] == rest[a]);
                    assert(m[b + 1] == rest[b]);
                }
                let p = position_of(rest, name);
                assert(m[p + 1] == rest[p]);
                lemma_position_unique(m, p + 1);
            }
        }
    }
}

/// With distinct names, the entry at position `i` is the one its name finds.
pub proof fn lemma_position_unique<T>(m: Seq<(Seq<char>, T)>, i: int)
    requires
        keys_distinct(m),
        0 <= i < m.len(),
    ensures
        has_key(m, m[i].0),
        position_of(m, m[i].0) == i,
        value_of(m, m[i].0) == m[i].1,
{
    let name = m[i].0;
    assert(has_key(m, name));
    let p = position_of(m, name);
    assert(0 <= p < m.len() && m[p].0 == name);
    if p < i {
        assert(m[p].0 != m[i].0);
    } else if i < p {
        assert(m[i].0 != m[p].0);
    }
}

/// Appending an entry under a new name keeps names distinct, adds exactly that
/// name to the keys, and leaves every earlier lookup as it was.
pub proof fn lemma_push_fresh<T>(m: Seq<(Seq<char>, T)>, name: Seq<char>, value: T)
    requires
        keys_distinct(m),
        !has_key(m, name),
    ensures
        keys_distinct(m.push((name, value))),
        forall|k: Seq<char>| has_key(m.push((name, value)), k) <==> (k == name || has_key(m, k)),
        value_of(m.push((name, value)), name) == value,
        forall|k: Seq<char>| has_key(m, k) ==> value_of(m.push((name, value)), k) == value_of(m, k),
{
    let m2 = m.push((name, value));
    assert forall|i: int, j: int| 0 <= i < j < m2.len() implies (#[trigger] m2[i]).0 != (
    #[trigger] m2[j]).0 by {
        if j < m.len() {
            assert(m[i].0 != m[j].0);
        } else {
            assert(m2[i] == m[i]);
        }
    }
    assert forall|k: Seq<char>| has_key(m2, k) <==> (k == name || has_key(m, k)) by {
        if has_key(m2, k) {
            let i = choose|i: int| 0 <= i < m2.len() && (#[trigger] m2[i]).0 == k;
            if i < m.len() {
                assert(m[i].0 == k);
            }
        }
        if k == name {
            assert(m2[m.len() as int].0 == k);
        }
        if has_key(m, k) {
            let i = choose|i: int| 0 <= i < m.len() && (#[trigger] m[i]).0 == k;
            assert(m2[i].0 == k);
        }
    }
    lemma_position_unique(m2, m.len() as int);
    assert forall|k: Seq<char>| has_key(m, k) implies value_of(m2, k) == value_of(m, k) by {
        let i = position_of(m, k);
        assert(m2[i] == m[i]);
        lemma_position_unique(m2, i);
    }
}

/// A map from names to values, in insertion order.
#[derive(Debug)]
pub struct OrderedMap<V> {
    entries: Vec<(String, V)>,
}

impl<V: DeepView> View for OrderedMap<V> {
    type V = Seq<(Seq<char>, V::V)>;

    /// The entries as mathematical pairs of a name and a value, in order.
    closed spec fn view(&self) -> Seq<(Seq<char>, V::V)> {
        Seq::new(self.entries@.len(), |i: int| (self.entries@[i].0@, self.entries@[i].1.deep_view()))
    }
}

impl<V: DeepView> DeepView for OrderedMap<V> {
    type V = Seq<(Seq<char>, V::V)>;

    /// The same as the view.
    open spec fn deep_view(&self) -> Seq<(Seq<char>, V::V)> {
        self@
    }
}

impl<V: DeepView> OrderedMap<V> {
    /// The values themselves, in entry order.
    pub closed spec fn values(&self) -> Seq<V> {
        Seq::new(self.entries@.len(), |i: int| self.entries@[i].1)
    }

    /// There are as many values as entries.
    pub proof fn lemma_values_len(&self)
        ensures
            self.values().len() == self@.len(),
    {
    }

    /// Validity: every name occurs once.
    pub open spec fn wf(&self) -> bool {
        keys_distinct(self@)
    }

    /// A map without entries.
    pub fn new() -> (m: Self)
        ensures
            m.wf(),
            m@.len() == 0,
            m.values().len() == 0,
    {
        OrderedMap { entries: Vec::new() }
    }

    /// The number of entries.
    pub fn len(&self) -> (n: usize)
        ensures
            n == self@.len(),
            n == self.values().len(),
    {
        self.entries.len()
    }

    /// The position of the entry filed under `name`, if there is one.
    pub fn position(&self, name: &String) -> (r: Option<usize>)
        ensures
            match r {
                Some(i) => i < self@.len() && self@[i as int].0 == name@,
                None => !has_key(self@, name@),
            },
            self.wf() && r is Some ==> r->0 == position_of(self@, name@),
            r matches Some(i) ==> lookup(self@, name@) == Some(self@[i as int].1),
            r is None ==> lookup(self@, name@) is None,
    {
        let mut i: usize = 0;
        while i < self.entries.len()
            invariant
                i <= self.entries@.len(),
                forall|j: int| 0 <= j < i ==> (#[trigger] self@[j]).0 != name@,
            decreases self.entries@.len() - i,
        {
            if self.entries[i].0 == *name {
                proof {
                    if self.wf() {
                        lemma_position_unique(self@, i as int);
                    }
                    lemma_lookup_skips(self@, name@, i as int);
                }
                return Some(i);
            }
            i += 1;
        }
        proof {
            lemma_lookup_skips(self@, name@, i as int);
        }
        None
    }

    /// Whether some entry is filed under `name`.
    pub fn contains_key(&self, name: &String) -> (b: bool)
        ensures
            b == has_key(self@, name@),
    {
        self.position(name).is_some()
    }

    /// The value filed under `name`, if there is one.
    pub fn get(&self, name: &String) -> (r: Option<&V>)
        ensures
            r is Some <==> has_key(self@, name@),
            r is Some ==> lookup(self@, name@) == Some(r->0.deep_view()),
            r is None ==> lookup(self@, name@) is None,
            self.wf() && r is Some ==> r->0.deep_view() == value_of(self@, name@),
            r is Some ==> self.values().contains(*r->0),
    {
        proof {
            lemma_lookup_has_key(self@, name@);
        }
        match self.position(name) {
            Some(i) => {
                assert(self.values()[i as int] == self.entries@[i as int].1);
                Some(&self.entries[i].1)
            },
            None => None,
        }
    }

    /// The name of the entry at position `i`.
    pub fn key_at(&self, i: usize) -> (name: &String)
        requires
            i < self@.len(),
        ensures
            name@ == self@[i as int].0,
    {
        &self.entries[i].0
    }

    /// The value of the entry at position `i`.
    pub fn value_at(&self, i: usize) -> (value: &V)
        requires
            i < self@.len(),
        ensures
            value.deep_view() == self@[i as int].1,
            *value == self.values()[i as int],
    {
        &self.entries[i].1
    }

    /// Files `value` under `name`. A name that is already present keeps its
    /// position and gets the new value, and the value it had is returned; a new
    /// name goes to the end.
    pub fn insert(&mut self, name: String, value: V) -> (previous: Option<V>)
        requires
            old(self).wf(),
        ensures
            final(self).wf(),
            match previous {
                Some(p) => has_key(old(self)@, name@) && p.deep_view() == value_of(
                    old(self)@,
                    name@,
                ) && final(self)@ == old(self)@.update(
                    position_of(old(self)@, name@),
                    (name@, value.deep_view()),
                ),
                None => !has_key(old(self)@, name@) && final(self)@ == old(self)@.push(
                    (name@, value.deep_view()),
                ),
            },
            final(self)@ == with_entry(old(self)@, name@, value.deep_view()),
            final(self).values() == if has_key(old(self)@, name@) {
                old(self).values().update(position_of(old(self)@, name@), value)
            } else {
                old(self).values().push(value)
            },
    {
        let ghost before = self@;
        let ghost values_before = self.values();
        match self.position(&name) {
            Some(i) => {
                let removed = self.entries.remove(i);
                self.entries.insert(i, (name, value));
                proof {
                    let after = self@;
                    let expected = before.update(i as int, (name@, value.deep_view()));
                    assert(after =~= expected);
                    assert(self.values() =~= values_before.update(i as int, value));
                    assert forall|a: int, b: int| 0 <= a < b < after.len() implies (
                    #[trigger] after[a]).0 != (#[trigger] after[b]).0 by {
                        assert(after[a].0 == before[a].0);
                        assert(after[b].0 == before[b].0);
                    }
                }
                Some(removed.1)
            },
            None => {
                self.entries.push((name, value));
                proof {
                    assert(self@ =~= before.push((name@, value.deep_view())));
                    assert(self.values() =~= values_before.push(value));
                    lemma_push_fresh(before, name@, value.deep_view());
                }
                None
            },
        }
    }

    /// The names, in entry order.
    pub fn keys(&self) -> (names: Vec<String>)
        ensures
            lines_of(names@) == key_seq(self@),
    {
        let mut names: Vec<String> = Vec::new();
        let mut i: usize = 0;
        while i < self.entries.len()
            invariant
                i <= self.entries@.len(),
                names@.len() == i,
                forall|j: int| 0 <= j < i ==> (#[trigger] names@[j])@ == self@[j].0,
            decreases self.entries@.len() - i,
        {
            names.push(self.entries[i].0.clone());
            i += 1;
        }
        proof {
            assert(lines_of(names@) =~= key_seq(self@));
        }
        names
    }
}

impl OrderedMap<Vec<String>> {
    /// A copy of the map, entry by entry.
    pub fn duplicate(&self) -> (copy: Self)
        ensures
            copy@ == self@,
    {
        let mut entries: Vec<(String, Vec<String>)> = Vec::new();
        let mut i: usize = 0;
        while i < self.entries.len()
            invariant
                i <= self.entries@.len(),
                entries@.len() == i,
                forall|j: int|
                    0 <= j < i ==> (#[trigger] entries@[j]).0@ == self.entries@[j].0@
                        && entries@[j].1.deep_view() == self.entries@[j].1.deep_view(),
            decreases self.entries@.len() - i,
        {
            let name = self.entries[i].0.clone();
            let values = copy_texts(&self.entries[i].1);
            entries.push((name, values));
            i += 1;
        }
        let copy = OrderedMap { entries };
        proof {
            assert(copy@ =~= self@);
        }
        copy
    }
}

/// A copy of `list`, string by string.
pub fn copy_texts(list: &Vec<String>) -> (copy: Vec<String>)
    ensures
        copy.deep_view() == list.deep_view(),
{
    let mut copy: Vec<String> = Vec::new();
    let mut i: usize = 0;
    while i < list.len()
        invariant
            i <= list@.len(),
            copy@.len() == i,
            forall|j: int| 0 <= j < i ==> (#[trigger] copy@[j])@ == list@[j]@,
        decreases list@.len() - i,
    {
        copy.push(list[i].clone());
        i += 1;
    }
    proof {
        assert(copy.deep_view() =~= list.deep_view());
    }
    copy
}

/// Whether `needle` occurs in `haystack`.
pub fn contains_text(haystack: &Vec<String>, needle: &String) -> (found: bool)
    ensures
        found == haystack.deep_view().contains(needle@),
{
    let mut i: usize = 0;
    while i < haystack.len()
        invariant
            i <= haystack@.len(),
            forall|j: int| 0 <= j < i ==> (#[trigger] haystack.deep_view()[j]) != needle@,
        decreases haystack@.len() - i,
    {
        if haystack[i] == *needle {
            assert(haystack.deep_view()[i as int] == needle@);
            return true;
        }
        i += 1;
    }
    false
}

} // verus!
