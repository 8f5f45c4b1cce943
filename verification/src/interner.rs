//! A table that gives each distinct name a dense integer key, so that names
//! are compared byte by byte once, when they enter, and by key afterwards.

use vstd::prelude::*;
use crate::name::Name;

verus! {

/// The names seen so far, each once, in the order in which they first came.
/// A name's key is its position.
pub struct Interner {
    names: Vec<Name>,
}

impl View for Interner {
    type V = Seq<Seq<u8>>;

    closed spec fn view(&self) -> Seq<Seq<u8>> {
        Seq::new(self.names@.len(), |k: int| self.names@[k]@)
    }
}

impl Interner {
    /// No name stands in the table twice: a key determines its name and a
    /// name its key.
    pub open spec fn wf(&self) -> bool {
        self@.no_duplicates()
    }

    /// A table without names.
    pub fn new() -> (t: Interner)
        ensures
            t@ == Seq::<Seq<u8>>::empty(),
            t.wf(),
    {
        let t = Interner { names: Vec::new() };
        proof {
            assert(t@ =~= Seq::<Seq<u8>>::empty());
        }
        t
    }

    /// The number of names, which is also the least key not yet given out.
    pub fn len(&self) -> (n: usize)
        ensures
            n == self@.len(),
    {
        self.names.len()
    }

    /// The key under which the table holds `name`, if it does.
    pub fn lookup(&self, name: &Name) -> (r: Option<usize>)
        ensures
            match r {
                Some(k) => k < self@.len() && self@[k as int] == name@,
                None => !self@.contains(name@),
            },
    {
        let mut k: usize = 0;
        while k < self.names.len()
            invariant
                k <= self.names.len(),
                forall|j: int| 0 <= j < k ==> self@[j] != name@,
            decreases self.names.len() - k,
        {
            if self.names[k].same(name) {
                return Some(k);
            }
            k += 1;
        }
        None
    }

    /// The key of `name`, which enters the table at the end if it is new.
    /// The names already there keep their keys.
    pub fn intern(&mut self, name: &Name) -> (k: usize)
        requires
            old(self).wf(),
        ensures
            final(self).wf(),
            final(self)@ == if old(self)@.contains(name@) {
                old(self)@
            } else {
                old(self)@.push(name@)
            },
            k < final(self)@.len(),
            final(self)@[k as int] == name@,
    {
        match self.lookup(name) {
            Some(k) => k,
            None => {
                let k = self.names.len();
                self.names.push(name.clone());
                proof {
                    assert(self@ =~= old(self)@.push(name@));
                }
                k
            },
        }
    }

    /// The name that has key `k`.
    pub fn name(&self, k: usize) -> (n: &Name)
        requires
            k < self@.len(),
        ensures
            n@ == self@[k as int],
    {
        &self.names[k]
    }
}

} // verus!
