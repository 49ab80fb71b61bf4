//! A cache of host handles by type path.

use vstd::prelude::*;
use crate::bytes::{bytes_eq, copy_range};
use crate::host::WorldRef;

verus! {

/// Remembers one host handle per type path. Entries are only ever added or
/// replaced: what a session has learnt about a type path stays valid for as
/// long as the session lives.
#[derive(Debug)]
pub struct PathCache {
    /// The remembered paths; no path occurs twice.
    entries: Vec<(Vec<u8>, WorldRef)>,
}

impl View for PathCache {
    type V = Map<Seq<u8>, WorldRef>;

    closed spec fn view(&self) -> Map<Seq<u8>, WorldRef> {
        Map::new(
            |k: Seq<u8>| self.holds(k),
            |k: Seq<u8>| self.entries@[self.position(k)].1,
        )
    }
}

impl PathCache {
    spec fn holds(&self, k: Seq<u8>) -> bool {
        exists|i: int| 0 <= i < self.entries@.len() && #[trigger] self.entries@[i].0@ == k
    }

    spec fn position(&self, k: Seq<u8>) -> int {
        choose|i: int| 0 <= i < self.entries@.len() && #[trigger] self.entries@[i].0@ == k
    }

    /// The invariant of the cache: no path is remembered twice.
    pub closed spec fn wf(&self) -> bool {
        forall|i: int, j: int|
            0 <= i < self.entries@.len() && 0 <= j < self.entries@.len() && i != j
                ==> #[trigger] self.entries@[i].0@ != #[trigger] self.entries@[j].0@
    }

    /// A cache that remembers nothing.
    pub fn new() -> (s: PathCache)
        ensures
            s.wf(),
            s@ == Map::<Seq<u8>, WorldRef>::empty(),
    {
        let s = PathCache { entries: Vec::new() };
        assert(s@ =~= Map::<Seq<u8>, WorldRef>::empty());
        s
    }

    fn find(&self, path: &Vec<u8>) -> (r: Option<usize>)
        requires
            self.wf(),
        ensures
            match r {
                Some(i) => i < self.entries@.len() && self.entries@[i as int].0@ == path@
                    && self.holds(path@) && self.position(path@) == i,
                None => !self.holds(path@),
            },
    {
        let mut i: usize = 0;
        while i < self.entries.len()
            invariant
                self.wf(),
                i <= self.entries@.len(),
                forall|j: int| 0 <= j < i ==> #[trigger] self.entries@[j].0@ != path@,
            decreases self.entries@.len() - i,
        {
            if bytes_eq(self.entries[i].0.as_slice(), path.as_slice()) {
                proof {
                    assert(self.entries@[i as int].0@ == path@);
                    assert(self.holds(path@));
                    let j = self.position(path@);
                    if j != i {
                        assert(self.entries@[i as int].0@ != self.entries@[j].0@);
                    }
                }
                return Some(i);
            }
            i += 1;
        }
        None
    }

    /// The handle remembered for `path`, if there is one.
    pub fn get(&self, path: &Vec<u8>) -> (r: Option<WorldRef>)
        requires
            self.wf(),
        ensures
            match r {
                Some(v) => self@.contains_key(path@) && self@[path@] == v,
                None => !self@.contains_key(path@),
            },
    {
        match self.find(path) {
            Some(i) => Some(self.entries[i].1),
            None => None,
        }
    }

    /// Remembers `handle` for `path`, in place of what was remembered for it
    /// before, if anything.
    pub fn insert(&mut self, path: &Vec<u8>, handle: WorldRef)
        requires
            old(self).wf(),
        ensures
            final(self).wf(),
            final(self)@ == old(self)@.insert(path@, handle),
    {
        let ghost before = *self;
        match self.find(path) {
            Some(i) => {
                let key = copy_range(path.as_slice(), 0, path.len());
                assert(key@ =~= path@);
                self.entries.set(i, (key, handle));
            },
            None => {
                let key = copy_range(path.as_slice(), 0, path.len());
                assert(key@ =~= path@);
                self.entries.push((key, handle));
            },
        }
        proof {
            assert forall|k: Seq<u8>| self.holds(k) <==> (k == path@ || before.holds(k)) by {
                if self.holds(k) {
                    let j = self.position(k);
                    if k != path@ {
                        assert(before.entries@[j].0@ == k);
                    }
                }
                if before.holds(k) {
                    let j = before.position(k);
                    assert(self.entries@[j].0@ == k);
                }
                if k == path@ {
                    let j = if before.holds(k) { before.position(k) } else { before.entries@.len() as int };
                    assert(self.entries@[j].0@ == k);
                }
            }
            assert forall|k: Seq<u8>| #[trigger] self@.contains_key(k) implies self@[k] == before@.insert(path@, handle)[k] by {
                let j = self.position(k);
                if k != path@ {
                    assert(before.entries@[j].0@ == k);
                    assert(before.position(k) == j);
                }
            }
            assert(self@ =~= before@.insert(path@, handle));
        }
    }
}

impl Default for PathCache {
    fn default() -> (s: PathCache)
        ensures
            s.wf(),
            s@ == Map::<Seq<u8>, WorldRef>::empty(),
    {
        PathCache::new()
    }
}

} // verus!
