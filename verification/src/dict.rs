//! Values by name.

use vstd::prelude::*;

use crate::text;

verus! {

/// Values by name. A name that is set again keeps its place.
#[derive(Debug)]
pub struct Dict<V> {
    entries: Vec<(String, V)>,
}

/// The names of some entries, in order.
pub open spec fn names<V>(entries: Seq<(String, V)>) -> Seq<Seq<char>> {
    entries.map_values(|e: (String, V)| e.0@)
}

/// The map that some entries stand for: a name leads to its first entry.
pub open spec fn as_map<V: View>(entries: Seq<(String, V)>) -> Map<Seq<char>, V::V> {
    Map::new(
        |k: Seq<char>| names(entries).contains(k),
        |k: Seq<char>| entries[text::first_index(names(entries), k) as int].1@,
    )
}

proof fn lemma_update<V: View>(entries: Seq<(String, V)>, k: Seq<char>, name: String, v: V)
    requires
        names(entries).contains(k),
        name@ == k,
    ensures
        as_map(entries.update(text::first_index(names(entries), k) as int, (name, v))) == as_map(
            entries,
        ).insert(k, v@),
{
    let i = text::first_index(names(entries), k) as int;
    text::lemma_first_index(names(entries), k);
    let e2 = entries.update(i, (name, v));
    assert(names(e2) =~= names(entries));
    let m1 = as_map(e2);
    let m2 = as_map(entries).insert(k, v@);
    assert forall|q: Seq<char>| names(e2).contains(q) implies #[trigger] m1[q] == m2[q] by {
        text::lemma_first_index(names(entries), q);
    }
    assert(m1 =~= m2);
}

proof fn lemma_push<V: View>(entries: Seq<(String, V)>, name: String, v: V)
    requires
        !names(entries).contains(name@),
    ensures
        as_map(entries.push((name, v))) == as_map(entries).insert(name@, v@),
{
    let k = name@;
    let e2 = entries.push((name, v));
    let n1 = names(entries);
    let n2 = names(e2);
    assert(n2 =~= n1.push(k));
    let m1 = as_map(e2);
    let m2 = as_map(entries).insert(k, v@);
    assert forall|q: Seq<char>| n2.contains(q) == (n1.contains(q) || q == k) by {
        if n1.contains(q) {
            let i = n1.index_of(q);
            assert(n2[i] == q);
        }
        if q == k {
            assert(n2[n1.len() as int] == k);
        }
    }
    assert forall|q: Seq<char>| n2.contains(q) implies #[trigger] m1[q] == m2[q] by {
        if q == k {
            assert forall|j: int| 0 <= j < n1.len() implies n2[j] != k by {
                assert(n1.contains(n1[j]));
            }
            text::lemma_first_index_is(n2, k, n1.len() as int);
        } else {
            text::lemma_first_index(n1, q);
            let i = text::first_index(n1, q) as int;
            assert forall|j: int| 0 <= j < i implies n2[j] != q by {
                assert(n1[j] != q);
            }
            text::lemma_first_index_is(n2, q, i);
        }
    }
    assert(m1 =~= m2);
}

impl<V: View> View for Dict<V> {
    type V = Map<Seq<char>, V::V>;

    closed spec fn view(&self) -> Map<Seq<char>, V::V> {
        as_map(self.entries@)
    }
}

impl<V: View> Dict<V> {
    pub fn new() -> (r: Dict<V>)
        ensures
            r@ == Map::<Seq<char>, V::V>::empty(),
    {
        let r = Dict { entries: Vec::new() };
        assert(r@ =~= Map::<Seq<char>, V::V>::empty());
        r
    }

    fn find(&self, name: &str) -> (r: usize)
        ensures
            r == text::first_index(names(self.entries@), name@),
            r <= self.entries@.len(),
            r < self.entries@.len() <==> names(self.entries@).contains(name@),
            r < self.entries@.len() ==> self.entries@[r as int].0@ == name@,
    {
        let ghost all = names(self.entries@);
        let mut i: usize = 0;
        while i < self.entries.len() && !text::same(self.entries[i].0.as_str(), name)
            invariant
                i <= self.entries@.len(),
                all == names(self.entries@),
                forall|j: int| 0 <= j < i ==> #[trigger] all[j] != name@,
            decreases self.entries@.len() - i,
        {
            assert(all[i as int] == self.entries@[i as int].0@);
            i += 1;
        }
        proof {
            assert(i < self.entries@.len() ==> all[i as int] == self.entries@[i as int].0@);
            text::lemma_first_index_is(all, name@, i as int);
            text::lemma_first_index(all, name@);
        }
        i
    }

    pub fn get(&self, name: &str) -> (r: Option<&V>)
        ensures
            r is Some == self@.contains_key(name@),
            r matches Some(v) ==> v@ == self@[name@],
    {
        let i = self.find(name);
        if i < self.entries.len() {
            Some(&self.entries[i].1)
        } else {
            None
        }
    }

    /// Sets a value, in place of one that is there.
    pub fn insert(&mut self, name: &str, value: V)
        ensures
            final(self)@ == old(self)@.insert(name@, value@),
    {
        let i = self.find(name);
        if i < self.entries.len() {
            let key = name.to_string();
            proof {
                lemma_update(self.entries@, name@, key, value);
            }
            self.entries.set(i, (key, value));
        } else {
            let key = name.to_string();
            proof {
                lemma_push(self.entries@, key, value);
            }
            self.entries.push((key, value));
        }
    }

    /// The value under a name, to change it. Where there is none, `default` is
    /// put there first.
    pub fn get_or(&mut self, name: &str, default: V) -> (r: &mut V)
        ensures
            r@ == (if old(self)@.contains_key(name@) {
                old(self)@[name@]
            } else {
                default@
            }),
            final(self)@ == old(self)@.insert(name@, final(r)@),
    {
        let ghost start = self@;
        let mut i = self.find(name);
        if i == self.entries.len() {
            let key = name.to_string();
            proof {
                lemma_push(self.entries@, key, default);
            }
            self.entries.push((key, default));
            assert(self@.contains_key(name@));
            i = self.find(name);
            assert(self.entries@[i as int].1@ == self@[name@]);
        }
        let ghost before = self.entries@;
        let ghost key = before[i as int].0;
        let v = &mut self.entries[i].1;
        proof {
            lemma_update(before, name@, key, *final(v));
            assert(as_map(before).insert(name@, final(v)@) =~= start.insert(name@, final(v)@));
        }
        v
    }

    /// The values with their names.
    pub fn entries(&self) -> (r: &Vec<(String, V)>)
        ensures
            as_map(r@) == self@,
    {
        &self.entries
    }

    /// Values with their names; of two under one name the first counts.
    pub fn from_entries(entries: Vec<(String, V)>) -> (r: Dict<V>)
        ensures
            r@ == as_map(entries@),
    {
        Dict { entries }
    }
}

} // verus!
