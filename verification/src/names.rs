//! A set of names, kept as a list without repetition.

use crate::text::views;
use vstd::prelude::*;

verus! {

/// A set of names. Its view is the set of their texts.
#[derive(Debug)]
pub struct NameSet {
    names: Vec<String>,
}

impl View for NameSet {
    type V = Set<Seq<char>>;

    closed spec fn view(&self) -> Set<Seq<char>> {
        views(self.names@).to_set()
    }
}

impl NameSet {
    #[verifier::type_invariant]
    spec fn distinct(self) -> bool {
        views(self.names@).no_duplicates()
    }

    /// The names in the order in which the set holds them.
    pub closed spec fn in_order(self) -> Seq<Seq<char>> {
        views(self.names@)
    }

    /// The empty set.
    pub fn new() -> (r: NameSet)
        ensures
            r@ == Set::<Seq<char>>::empty(),
    {
        let r = NameSet { names: Vec::new() };
        assert(views(r.names@) == Seq::<Seq<char>>::empty());
        r
    }

    fn position(&self, name: &str) -> (r: Option<usize>)
        ensures
            match r {
                Some(i) => i < self.names@.len() && self.names@[i as int]@ == name@,
                None => forall|j: int| 0 <= j < self.names@.len() ==> (#[trigger] self.names@[j])@ != name@,
            },
    {
        let wanted = name.to_owned();
        let mut i: usize = 0;
        while i < self.names.len()
            invariant
                i <= self.names@.len(),
                wanted@ == name@,
                forall|j: int| 0 <= j < i ==> (#[trigger] self.names@[j])@ != name@,
            decreases self.names@.len() - i,
        {
            if self.names[i] == wanted {
                return Some(i);
            }
            i += 1;
        }
        None
    }

    /// Whether the name is in the set.
    pub fn contains(&self, name: &str) -> (r: bool)
        ensures
            r == self@.contains(name@),
    {
        let found = self.position(name);
        proof {
            let all = views(self.names@);
            match found {
                Some(i) => {
                    assert(all[i as int] == name@);
                    assert(all.contains(name@));
                },
                None => {
                    if all.contains(name@) {
                        let k = choose|k: int| 0 <= k < all.len() && all[k] == name@;
                        assert(self.names@[k]@ == name@);
                    }
                },
            }
        }
        found.is_some()
    }

    /// Adds the name.
    pub fn insert(&mut self, name: String)
        ensures
            final(self)@ == old(self)@.insert(name@),
    {
        proof {
            use_type_invariant(&*self);
        }
        if self.contains(name.as_str()) {
            assert(self@.insert(name@) == self@);
            return;
        }
        let ghost before = views(self.names@);
        let mut names: Vec<String> = Vec::new();
        core::mem::swap(&mut names, &mut self.names);
        names.push(name);
        proof {
            let after = views(names@);
            assert(after == before.push(name@));
            assert(!before.contains(name@));
            assert(after.no_duplicates()) by {
                assert forall|i: int, j: int| 0 <= i < after.len() && 0 <= j < after.len() && i != j implies after[i]
                    != after[j] by {
                    if i == before.len() {
                        assert(before.contains(after[j]));
                    } else if j == before.len() {
                        assert(before.contains(after[i]));
                    }
                }
            }
            assert(after.to_set() == before.to_set().insert(name@)) by {
                assert forall|s: Seq<char>| after.to_set().contains(s) == before.to_set().insert(
                    name@,
                ).contains(s) by {
                    if after.contains(s) {
                        let k = choose|k: int| 0 <= k < after.len() && after[k] == s;
                        if k < before.len() {
                            assert(before[k] == s);
                        }
                    }
                    if before.contains(s) {
                        let k = choose|k: int| 0 <= k < before.len() && before[k] == s;
                        assert(after[k] == s);
                    }
                    assert(after[before.len() as int] == name@);
                }
            }
        }
        self.names = names;
    }

    /// Takes the name away.
    pub fn remove(&mut self, name: &str)
        ensures
            final(self)@ == old(self)@.remove(name@),
    {
        proof {
            use_type_invariant(&*self);
        }
        match self.position(name) {
            None => {
                proof {
                    let all = views(self.names@);
                    if all.contains(name@) {
                        let k = choose|k: int| 0 <= k < all.len() && all[k] == name@;
                        assert(self.names@[k]@ == name@);
                    }
                    assert(self@.remove(name@) == self@);
                }
            },
            Some(at) => {
                let ghost before = views(self.names@);
                let mut names: Vec<String> = Vec::new();
                core::mem::swap(&mut names, &mut self.names);
                let _ = names.remove(at);
                proof {
                    let after = views(names@);
                    assert(after == before.remove(at as int));
                    assert(after.no_duplicates());
                    assert(after.to_set() == before.to_set().remove(name@)) by {
                        assert forall|s: Seq<char>| after.to_set().contains(s)
                            == before.to_set().remove(name@).contains(s) by {
                            if after.contains(s) {
                                let k = choose|k: int| 0 <= k < after.len() && after[k] == s;
                                let m = if k < at { k } else { k + 1 };
                                assert(before[m] == s);
                                assert(before[at as int] == name@);
                                assert(m != at);
                            }
                            if before.contains(s) && s != name@ {
                                let k = choose|k: int| 0 <= k < before.len() && before[k] == s;
                                let m = if k < at { k } else { k - 1 };
                                assert(after[m] == s);
                            }
                        }
                    }
                }
                self.names = names;
            },
        }
    }

    /// How many names the set holds.
    pub fn len(&self) -> (r: usize)
        ensures
            r == self@.len(),
    {
        proof {
            use_type_invariant(self);
            views(self.names@).unique_seq_to_set();
        }
        self.names.len()
    }

    /// Whether the set holds no name.
    pub fn is_empty(&self) -> (r: bool)
        ensures
            r == (self@ == Set::<Seq<char>>::empty()),
    {
        let n: usize = self.names.len();
        proof {
            let all = views(self.names@);
            if n > 0 {
                assert(all.contains(all[0]));
                assert(self@.contains(all[0]));
            } else {
                assert(self@ == Set::<Seq<char>>::empty()) by {
                    assert forall|s: Seq<char>| !self@.contains(s) by {}
                }
            }
        }
        n == 0
    }

    /// The same set again.
    pub fn copy(&self) -> (r: NameSet)
        ensures
            r@ == self@,
    {
        proof {
            use_type_invariant(self);
        }
        let mut names: Vec<String> = Vec::new();
        let mut i: usize = 0;
        while i < self.names.len()
            invariant
                i <= self.names@.len(),
                names@ == self.names@.take(i as int),
            decreases self.names@.len() - i,
        {
            names.push(self.names[i].clone());
            assert(names@ == self.names@.take(i + 1));
            i += 1;
        }
        assert(self.names@.take(i as int) == self.names@);
        NameSet { names }
    }

    /// The names, each once.
    pub fn to_list(&self) -> (r: Vec<String>)
        ensures
            views(r@) == self.in_order(),
            views(r@).to_set() == self@,
            views(r@).no_duplicates(),
    {
        proof {
            use_type_invariant(self);
        }
        let mut names: Vec<String> = Vec::new();
        let mut i: usize = 0;
        while i < self.names.len()
            invariant
                i <= self.names@.len(),
                names@ == self.names@.take(i as int),
            decreases self.names@.len() - i,
        {
            names.push(self.names[i].clone());
            assert(names@ == self.names@.take(i + 1));
            i += 1;
        }
        assert(self.names@.take(i as int) == self.names@);
        names
    }
}

} // verus!
