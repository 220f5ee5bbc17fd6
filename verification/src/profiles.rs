//! The location profiles of a configuration, by name and in the order of their
//! names.

use vstd::prelude::*;

use crate::config::{Profile, ProfileModel};
use crate::text;

verus! {

/// Profiles by name. A name occurs once, and the profiles are kept in the order
/// of their names.
#[derive(Debug)]
pub struct Profiles {
    names: Vec<String>,
    profiles: Vec<Profile>,
}

/// The models behind a list of profiles.
pub open spec fn models(v: Seq<Profile>) -> Seq<ProfileModel> {
    v.map_values(|p: Profile| p@)
}

/// Each name comes before the next.
pub open spec fn in_order(names: Seq<Seq<char>>) -> bool {
    forall|i: int, j: int|
        0 <= i < j < names.len() ==> text::before(#[trigger] names[i], #[trigger] names[j])
}

/// The map that a list of names and a list of profiles stand for.
pub open spec fn as_map(names: Seq<Seq<char>>, profiles: Seq<ProfileModel>) -> Map<
    Seq<char>,
    ProfileModel,
> {
    Map::new(
        |k: Seq<char>| names.contains(k),
        |k: Seq<char>| profiles[text::first_index(names, k) as int],
    )
}

/// Another profile under a name that is there.
proof fn lemma_as_map_update(names: Seq<Seq<char>>, profiles: Seq<Profile>, k: Seq<char>, p: Profile)
    requires
        names.len() == profiles.len(),
        names.contains(k),
    ensures
        as_map(names, models(profiles.update(text::first_index(names, k) as int, p))) == as_map(
            names,
            models(profiles),
        ).insert(k, p@),
{
    let i = text::first_index(names, k) as int;
    text::lemma_first_index(names, k);
    let m1 = as_map(names, models(profiles.update(i, p)));
    let m2 = as_map(names, models(profiles)).insert(k, p@);
    assert forall|q: Seq<char>| names.contains(q) implies #[trigger] m1[q] == m2[q] by {
        text::lemma_first_index(names, q);
    }
    assert(m1 =~= m2);
}

/// A new name and its profile at a position of their own.
proof fn lemma_as_map_insert(
    names: Seq<Seq<char>>,
    profiles: Seq<Profile>,
    at: int,
    k: Seq<char>,
    p: Profile,
)
    requires
        names.len() == profiles.len(),
        0 <= at <= names.len(),
        !names.contains(k),
    ensures
        as_map(names.insert(at, k), models(profiles.insert(at, p))) == as_map(
            names,
            models(profiles),
        ).insert(k, p@),
{
    let n1 = names.insert(at, k);
    let m1 = as_map(n1, models(profiles.insert(at, p)));
    let m2 = as_map(names, models(profiles)).insert(k, p@);
    assert forall|q: Seq<char>| n1.contains(q) == (names.contains(q) || q == k) by {
        if names.contains(q) {
            let i = names.index_of(q);
            if i < at {
                assert(n1[i] == q);
            } else {
                assert(n1[i + 1] == q);
            }
        }
        if q == k {
            assert(n1[at] == k);
        }
        if n1.contains(q) && q != k {
            let i = n1.index_of(q);
            if i < at {
                assert(names[i] == q);
            } else {
                assert(names[i - 1] == q);
            }
        }
    }
    assert forall|q: Seq<char>| n1.contains(q) implies #[trigger] m1[q] == m2[q] by {
        if q == k {
            text::lemma_first_index_is(n1, k, at);
        } else {
            text::lemma_first_index(names, q);
            let i = text::first_index(names, q) as int;
            if i < at {
                text::lemma_first_index_is(n1, q, i);
            } else {
                assert forall|j: int| 0 <= j < i + 1 implies n1[j] != q by {
                    if j > at {
                        assert(n1[j] == names[j - 1]);
                    }
                }
                text::lemma_first_index_is(n1, q, i + 1);
            }
        }
    }
    assert(m1 =~= m2);
}

/// A name put behind those it follows and before the others keeps the order.
proof fn lemma_insert_in_order(names: Seq<Seq<char>>, at: int, k: Seq<char>)
    requires
        in_order(names),
        0 <= at <= names.len(),
        !names.contains(k),
        forall|j: int| 0 <= j < at ==> text::before(#[trigger] names[j], k),
        at < names.len() ==> !text::before(names[at], k),
    ensures
        in_order(names.insert(at, k)),
{
    let n = names.insert(at, k);
    assert forall|i: int, j: int| 0 <= i < j < n.len() implies text::before(
        #[trigger] n[i],
        #[trigger] n[j],
    ) by {
        if i == at {
            assert(n[j] == names[j - 1]);
            text::before_is_total(names[at], k);
            assert(names.contains(names[at]));
            if at < j - 1 {
                text::before_is_transitive(k, names[at], names[j - 1]);
            }
        } else if j == at {
            assert(n[i] == names[i]);
        } else if j < at {
            assert(n[i] == names[i] && n[j] == names[j]);
        } else if i < at {
            assert(n[i] == names[i] && n[j] == names[j - 1]);
        } else {
            assert(n[i] == names[i - 1] && n[j] == names[j - 1]);
        }
    }
}

impl View for Profiles {
    type V = Map<Seq<char>, ProfileModel>;

    closed spec fn view(&self) -> Map<Seq<char>, ProfileModel> {
        as_map(text::views(self.names@), models(self.profiles@))
    }
}

impl Clone for Profiles {
    fn clone(&self) -> (r: Profiles)
        ensures
            r@ == self@,
            r.spec_names() == self.spec_names(),
            r.wf() == self.wf(),
    {
        let mut profiles: Vec<Profile> = Vec::new();
        let mut i: usize = 0;
        while i < self.profiles.len()
            invariant
                i <= self.profiles@.len(),
                profiles@.len() == i,
                forall|j: int| 0 <= j < i ==> (#[trigger] profiles@[j])@ == self.profiles@[j]@,
            decreases self.profiles@.len() - i,
        {
            profiles.push(self.profiles[i].clone());
            i += 1;
        }
        assert(models(profiles@) =~= models(self.profiles@));
        Profiles { names: text::copy_list(&self.names), profiles }
    }
}

impl Profiles {
    /// The names, in order.
    pub closed spec fn spec_names(&self) -> Seq<Seq<char>> {
        text::views(self.names@)
    }

    /// The names are in order and each has a profile.
    pub closed spec fn wf(&self) -> bool {
        &&& self.names@.len() == self.profiles@.len()
        &&& in_order(text::views(self.names@))
    }

    pub fn new() -> (r: Profiles)
        ensures
            r.wf(),
            r@ == Map::<Seq<char>, ProfileModel>::empty(),
            r.spec_names() == Seq::<Seq<char>>::empty(),
    {
        let r = Profiles { names: Vec::new(), profiles: Vec::new() };
        assert(text::views(r.names@) =~= Seq::<Seq<char>>::empty());
        assert(r@ =~= Map::<Seq<char>, ProfileModel>::empty());
        r
    }

    /// The first position of `name`, or the number of profiles.
    fn find(&self, name: &str) -> (r: usize)
        requires
            self.wf(),
        ensures
            r == text::first_index(self.spec_names(), name@),
            r <= self.names@.len(),
            r < self.names@.len() <==> self.spec_names().contains(name@),
    {
        let mut i: usize = 0;
        while i < self.names.len() && !text::same(self.names[i].as_str(), name)
            invariant
                i <= self.names@.len(),
                forall|j: int| 0 <= j < i ==> text::views(self.names@)[j] != name@,
            decreases self.names@.len() - i,
        {
            i += 1;
        }
        proof {
            text::lemma_first_index_is(text::views(self.names@), name@, i as int);
            text::lemma_first_index(text::views(self.names@), name@);
        }
        i
    }

    pub fn len(&self) -> (r: usize)
        requires
            self.wf(),
        ensures
            r == self.spec_names().len(),
    {
        self.names.len()
    }

    pub fn is_empty(&self) -> (r: bool)
        requires
            self.wf(),
        ensures
            r == (self.spec_names().len() == 0),
    {
        self.names.len() == 0
    }

    pub fn contains_key(&self, name: &str) -> (r: bool)
        requires
            self.wf(),
        ensures
            r == self@.contains_key(name@),
    {
        self.find(name) < self.names.len()
    }

    pub fn get(&self, name: &str) -> (r: Option<&Profile>)
        requires
            self.wf(),
        ensures
            r is Some == self@.contains_key(name@),
            r matches Some(p) ==> p@ == self@[name@],
    {
        let i = self.find(name);
        if i < self.names.len() {
            Some(&self.profiles[i])
        } else {
            None
        }
    }

    pub fn get_mut(&mut self, name: &str) -> (r: Option<&mut Profile>)
        requires
            old(self).wf(),
        ensures
            final(self).wf(),
            final(self).spec_names() == old(self).spec_names(),
            r is Some == old(self)@.contains_key(name@),
            match r {
                Some(p) => p@ == old(self)@[name@] && final(self)@ == old(self)@.insert(
                    name@,
                    final(p)@,
                ),
                None => final(self)@ == old(self)@,
            },
    {
        let i = self.find(name);
        if i < self.names.len() {
            let ghost names = self.spec_names();
            let ghost before = self.profiles@;
            let p = &mut self.profiles[i];
            proof {
                lemma_as_map_update(names, before, name@, *final(p));
            }
            Some(p)
        } else {
            None
        }
    }

    /// Puts `profile` under `name`, in place of one that is there.
    pub fn insert(&mut self, name: String, profile: Profile)
        requires
            old(self).wf(),
        ensures
            final(self).wf(),
            final(self)@ == old(self)@.insert(name@, profile@),
            old(self)@.contains_key(name@) ==> final(self).spec_names() == old(self).spec_names(),
            !old(self)@.contains_key(name@) ==> final(self).spec_names().len() == old(
                self,
            ).spec_names().len() + 1,
    {
        let i = self.find(name.as_str());
        if i < self.names.len() {
            proof {
                lemma_as_map_update(self.spec_names(), self.profiles@, name@, profile);
            }
            self.profiles.set(i, profile);
        } else {
            let mut at: usize = 0;
            let ghost names = self.spec_names();
            while at < self.names.len() && text::comes_before(self.names[at].as_str(), name.as_str())
                invariant
                    at <= self.names@.len(),
                    names == text::views(self.names@),
                    forall|j: int| 0 <= j < at ==> text::before(#[trigger] names[j], name@),
                decreases self.names@.len() - at,
            {
                assert(names[at as int] == self.names@[at as int]@);
                at += 1;
            }
            proof {
                lemma_as_map_insert(names, self.profiles@, at as int, name@, profile);
                lemma_insert_in_order(names, at as int, name@);
                assert(text::views(self.names@.insert(at as int, name)) =~= names.insert(
                    at as int,
                    name@,
                ));
            }
            self.names.insert(at, name);
            self.profiles.insert(at, profile);
        }
    }

    /// The profile at position `i`, and its name.
    pub fn at(&self, i: usize) -> (r: (&String, &Profile))
        requires
            self.wf(),
            i < self.spec_names().len(),
        ensures
            r.0@ == self.spec_names()[i as int],
            self@.contains_key(r.0@),
            r.1@ == self@[r.0@],
    {
        proof {
            self.lemma_position(i as int);
        }
        (&self.names[i], &self.profiles[i])
    }

    /// The profile at position `i`, to change it.
    pub fn at_mut(&mut self, i: usize) -> (p: &mut Profile)
        requires
            old(self).wf(),
            i < old(self).spec_names().len(),
        ensures
            final(self).wf(),
            final(self).spec_names() == old(self).spec_names(),
            p@ == old(self)@[old(self).spec_names()[i as int]],
            final(self)@ == old(self)@.insert(old(self).spec_names()[i as int], final(p)@),
    {
        let ghost names = self.spec_names();
        let ghost before = self.profiles@;
        proof {
            self.lemma_position(i as int);
        }
        let p = &mut self.profiles[i];
        proof {
            lemma_as_map_update(names, before, names[i as int], *final(p));
        }
        p
    }

    proof fn lemma_position(&self, i: int)
        requires
            self.wf(),
            0 <= i < self.spec_names().len(),
        ensures
            text::first_index(self.spec_names(), self.spec_names()[i]) == i,
            self@.contains_key(self.spec_names()[i]),
            self.profiles@[i]@ == self@[self.spec_names()[i]],
    {
        let names = self.spec_names();
        assert forall|j: int| 0 <= j < i implies names[j] != names[i] by {
            assert(text::before(names[j], names[i]));
            text::before_is_total(names[j], names[i]);
        }
        text::lemma_first_index_is(names, names[i], i);
        assert(names.contains(names[i]));
    }

    /// The names are in order, each occurs once, and they are the keys of the
    /// map.
    pub proof fn names_are_the_keys_in_order(&self)
        requires
            self.wf(),
        ensures
            in_order(self.spec_names()),
            self.spec_names().no_duplicates(),
            forall|k: Seq<char>| self.spec_names().contains(k) <==> #[trigger] self@.contains_key(k),
    {
        let names = self.spec_names();
        assert forall|i: int, j: int| 0 <= i < j < names.len() implies names[i] != names[j] by {
            assert(text::before(names[i], names[j]));
            text::before_is_total(names[i], names[j]);
        }
    }

    /// The names, in order.
    pub fn keys(&self) -> (r: Vec<String>)
        requires
            self.wf(),
        ensures
            text::views(r@) == self.spec_names(),
    {
        text::copy_list(&self.names)
    }
}

/// A name leads to the profile at its own place, the first where it occurs twice;
/// what is not among the names leads nowhere.
pub proof fn a_name_leads_to_its_profile(
    names: Seq<Seq<char>>,
    profiles: Seq<ProfileModel>,
    i: int,
    other: Seq<char>,
)
    requires
        0 <= i < names.len(),
        forall|j: int| 0 <= j < i ==> #[trigger] names[j] != names[i],
    ensures
        as_map(names, profiles).contains_key(names[i]),
        as_map(names, profiles)[names[i]] == profiles[i],
        (forall|j: int| 0 <= j < names.len() ==> #[trigger] names[j] != other) ==> !as_map(
            names,
            profiles,
        ).contains_key(other),
{
    text::lemma_first_index_is(names, names[i], i);
    assert(names.contains(names[i]));
}

} // verus!
