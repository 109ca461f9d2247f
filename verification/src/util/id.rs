use vstd::prelude::*;

verus! {

/// An interned identifier of a resource: a tile, an item, a script or a
/// data key.
pub type Id = u32;

/// The written form of an id, as saved in files: its namespace and name.
pub type IdRaw = String;

/// What an interner's names are: no name occurs twice, and every id fits
/// in an `Id`.
pub open spec fn valid_names(names: Seq<Seq<char>>) -> bool {
    &&& names.len() <= u32::MAX
    &&& forall|i: int, j: int|
        0 <= i < names.len() && 0 <= j < names.len() && i != j ==> #[trigger] names[i] != #[trigger] names[j]
}

/// The table between ids and their written forms: id `i` stands for the
/// `i`-th name interned.
pub struct Interner {
    names: Vec<String>,
}

impl Interner {
    /// Every name is interned once, and every id fits in an `Id`.
    #[verifier::type_invariant]
    closed spec fn wf(self) -> bool {
        &&& self.names@.len() <= u32::MAX
        &&& forall|i: int, j: int|
            0 <= i < j < self.names@.len() ==> (#[trigger] self.names@[i])@ != (#[trigger] self.names@[j])@
    }

    /// The interned names, in the order of their ids.
    pub closed spec fn names(self) -> Seq<Seq<char>> {
        self.names@.map_values(|s: String| s@)
    }

    proof fn lemma_valid(&self)
        requires
            self.wf(),
        ensures
            valid_names(self.names()),
    {
        assert forall|i: int, j: int|
            0 <= i < self.names().len() && 0 <= j < self.names().len() && i != j
                implies #[trigger] self.names()[i] != #[trigger] self.names()[j] by {
            if i < j {
                assert(self.names@[i]@ != self.names@[j]@);
            } else {
                assert(self.names@[j]@ != self.names@[i]@);
            }
        }
    }

    /// An interner with no names.
    pub fn new() -> (t: Interner)
        ensures
            t.names() == Seq::<Seq<char>>::empty(),
    {
        let t = Interner { names: Vec::new() };
        assert(t.names() =~= Seq::<Seq<char>>::empty());
        t
    }

    /// The id of `name`, if it is interned.
    pub fn get(&self, name: &String) -> (id: Option<Id>)
        ensures
            match id {
                Some(i) => i < self.names().len() && self.names()[i as int] == name@
                    && forall|j: int| 0 <= j < self.names().len() && self.names()[j] == name@ ==> j == i,
                None => forall|i: int| 0 <= i < self.names().len() ==> self.names()[i] != name@,
            },
    {
        proof {
            use_type_invariant(self);
        }
        let mut i: usize = 0;
        while i < self.names.len()
            invariant
                0 <= i <= self.names@.len(),
                self.names@.len() <= u32::MAX,
                forall|j: int| 0 <= j < i ==> self.names()[j] != name@,
                forall|a: int, b: int|
                    0 <= a < b < self.names@.len() ==> (#[trigger] self.names@[a])@ != (#[trigger] self.names@[b])@,
            decreases self.names@.len() - i,
        {
            if self.names[i] == *name {
                proof {
                    assert forall|j: int| 0 <= j < self.names().len() && self.names()[j] == name@ implies j == i by {
                        if j < i {
                            assert(self.names@[j]@ != self.names@[i as int]@);
                        } else if j > i {
                            assert(self.names@[i as int]@ != self.names@[j]@);
                        }
                    }
                }
                return Some(i as Id);
            }
            i = i + 1;
        }
        None
    }

    /// The name of `id`, if it is one.
    pub fn resolve(&self, id: Id) -> (name: Option<&String>)
        ensures
            match name {
                Some(s) => id < self.names().len() && s@ == self.names()[id as int],
                None => id >= self.names().len(),
            },
            id < self.names().len() ==> forall|j: int|
                0 <= j < self.names().len() && j != id ==> self.names()[j] != self.names()[id as int],
    {
        proof {
            use_type_invariant(self);
            assert forall|j: int|
                0 <= j < self.names().len() && j != id && id < self.names().len() implies self.names()[j]
                    != self.names()[id as int] by {
                if j < id {
                    assert(self.names@[j]@ != self.names@[id as int]@);
                } else {
                    assert(self.names@[id as int]@ != self.names@[j]@);
                }
            }
        }
        if (id as usize) < self.names.len() {
            Some(&self.names[id as usize])
        } else {
            None
        }
    }

    /// The id of `name`, interning it first when it is new.
    pub fn get_or_intern(&mut self, name: String) -> (id: Id)
        requires
            old(self).names().len() < u32::MAX,
        ensures
            id < final(self).names().len(),
            final(self).names()[id as int] == name@,
            (exists|i: int| 0 <= i < old(self).names().len() && old(self).names()[i] == name@)
                ==> final(self).names() == old(self).names(),
            (forall|i: int| 0 <= i < old(self).names().len() ==> old(self).names()[i] != name@)
                ==> final(self).names() == old(self).names().push(name@),
            valid_names(final(self).names()),
    {
        match self.get(&name) {
            Some(i) => {
                proof {
                    use_type_invariant(&*self);
                    self.lemma_valid();
                }
                i
            },
            None => {
                let n = self.names.len();
                let ghost before = self.names();
                proof {
                    use_type_invariant(&*self);
                }
                let mut taken = Interner::new();
                std::mem::swap(&mut taken, self);
                proof {
                    use_type_invariant(&taken);
                    assert(taken.names() == before);
                }
                let mut names = taken.names;
                let ghost old_names = names@;
                names.push(name);
                assert forall|i: int, j: int|
                    0 <= i < j < names@.len() implies (#[trigger] names@[i])@ != (#[trigger] names@[j])@ by {
                    if j == old_names.len() {
                        assert(before[i] == old_names[i]@);
                    } else {
                        assert(old_names[i]@ != old_names[j]@);
                    }
                }
                assert(names@.map_values(|s: String| s@) =~= before.push(name@));
                *self = Interner { names };
                proof {
                    use_type_invariant(&*self);
                    self.lemma_valid();
                }
                n as Id
            },
        }
    }
}

} // verus!
