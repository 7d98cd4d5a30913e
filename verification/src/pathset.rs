//! Finite sets of paths.

use crate::path::FsPath;
use vstd::prelude::*;

verus! {

/// `path` and every directory above it, up to the root.
pub open spec fn ancestry(path: Seq<Seq<char>>) -> Set<Seq<Seq<char>>> {
    Set::new(|p: Seq<Seq<char>>| p.is_prefix_of(path))
}

/// A set that holds, with each of its paths, every directory above it.
pub open spec fn ancestor_closed(paths: Set<Seq<Seq<char>>>) -> bool {
    forall|p: Seq<Seq<char>>, q: Seq<Seq<char>>|
        paths.contains(p) && #[trigger] q.is_prefix_of(p) ==> paths.contains(q)
}

/// Whether `paths` holds `path` or something below it.
pub open spec fn reaches(paths: Set<Seq<Seq<char>>>, path: Seq<Seq<char>>) -> bool {
    exists|p: Seq<Seq<char>>| paths.contains(p) && #[trigger] path.is_prefix_of(p)
}

/// The contents of a list of paths.
pub open spec fn views(items: Seq<FsPath>) -> Seq<Seq<Seq<char>>> {
    items.map_values(|item: FsPath| item@)
}

/// The part of the ancestry of `path` with fewer than `count` components.
spec fn ancestry_below(path: Seq<Seq<char>>, count: int) -> Set<Seq<Seq<char>>> {
    Set::new(|p: Seq<Seq<char>>| p.is_prefix_of(path) && p.len() < count)
}

/// The ancestor with `count` components is the one that the ancestry gains
/// when the bound goes from `count` to the next number.
proof fn lemma_ancestry_step(path: Seq<Seq<char>>, count: int)
    requires
        0 <= count <= path.len(),
    ensures
        ancestry_below(path, count + 1) == ancestry_below(path, count).insert(path.take(count)),
{
    assert(path.take(count).is_prefix_of(path));
    assert forall|p: Seq<Seq<char>>| p.is_prefix_of(path) && p.len() == count implies p
        == path.take(count) by {
        assert(p =~= path.take(count));
    }
    assert(ancestry_below(path, count + 1) =~= ancestry_below(path, count).insert(
        path.take(count),
    ));
}

/// A set of paths. No path is held twice.
#[derive(Debug)]
pub struct PathSet {
    items: Vec<FsPath>,
}

impl View for PathSet {
    type V = Set<Seq<Seq<char>>>;

    closed spec fn view(&self) -> Set<Seq<Seq<char>>> {
        views(self.items@).to_set()
    }
}

impl Clone for PathSet {
    fn clone(&self) -> (copy: Self)
        ensures
            copy@ == self@,
    {
        proof {
            use_type_invariant(self);
        }
        let mut items: Vec<FsPath> = Vec::new();
        let mut i: usize = 0;
        while i < self.items.len()
            invariant
                i <= self.items@.len(),
                views(items@) == views(self.items@).take(i as int),
            decreases self.items@.len() - i,
        {
            let item = self.items[i].clone();
            proof {
                items@.lemma_push_map_commute(|item: FsPath| item@, item);
                assert(views(self.items@).take(i as int + 1) == views(self.items@).take(
                    i as int,
                ).push(item@));
            }
            items.push(item);
            i += 1;
        }
        assert(views(self.items@).take(i as int) == views(self.items@));
        PathSet { items }
    }
}

impl PathSet {
    #[verifier::type_invariant]
    spec fn inv(self) -> bool {
        views(self.items@).no_duplicates()
    }

    /// The empty set.
    pub fn new() -> (set: PathSet)
        ensures
            set@ == Set::<Seq<Seq<char>>>::empty(),
    {
        let set = PathSet { items: Vec::new() };
        assert(set@ =~= Set::<Seq<Seq<char>>>::empty());
        set
    }

    /// The number of paths in the set.
    pub fn len(&self) -> (count: usize)
        ensures
            self@.finite(),
            count == self@.len(),
    {
        proof {
            use_type_invariant(self);
            views(self.items@).unique_seq_to_set();
        }
        self.items.len()
    }

    /// Whether the set holds `path`.
    pub fn contains(&self, path: &FsPath) -> (b: bool)
        ensures
            b == self@.contains(path@),
    {
        let mut i: usize = 0;
        while i < self.items.len()
            invariant
                i <= self.items@.len(),
                forall|j: int| 0 <= j < i ==> views(self.items@)[j] != path@,
            decreases self.items@.len() - i,
        {
            if self.items[i].same(path) {
                assert(views(self.items@)[i as int] == path@);
                return true;
            }
            i += 1;
        }
        false
    }

    /// Whether the set holds `path` or something below it.
    pub fn reaches(&self, path: &FsPath) -> (b: bool)
        ensures
            b == reaches(self@, path@),
    {
        let mut i: usize = 0;
        while i < self.items.len()
            invariant
                i <= self.items@.len(),
                forall|j: int| 0 <= j < i ==> !path@.is_prefix_of(#[trigger] views(self.items@)[j]),
            decreases self.items@.len() - i,
        {
            if self.items[i].starts_with(path) {
                assert(self@.contains(views(self.items@)[i as int]));
                return true;
            }
            i += 1;
        }
        assert(!reaches(self@, path@)) by {
            if reaches(self@, path@) {
                let p = choose|p: Seq<Seq<char>>| self@.contains(p) && #[trigger] path@.is_prefix_of(p);
                let j = choose|j: int| 0 <= j < views(self.items@).len() && views(self.items@)[j] == p;
                assert(!path@.is_prefix_of(views(self.items@)[j]));
            }
        }
        false
    }

    /// Adds `path`. Says whether the set did not hold it before.
    pub fn insert(&mut self, path: FsPath) -> (added: bool)
        ensures
            final(self)@ == old(self)@.insert(path@),
            added == !old(self)@.contains(path@),
    {
        proof {
            use_type_invariant(&*self);
        }
        if self.contains(&path) {
            assert(self@.insert(path@) =~= self@);
            false
        } else {
            let mut items: Vec<FsPath> = Vec::new();
            core::mem::swap(&mut self.items, &mut items);
            proof {
                items@.lemma_push_map_commute(|item: FsPath| item@, path);
                views(items@).lemma_push_to_set_commute(path@);
            }
            items.push(path);
            core::mem::swap(&mut self.items, &mut items);
            true
        }
    }

    /// Adds `path` and every directory above it.
    pub fn insert_ancestry(&mut self, path: &FsPath)
        ensures
            final(self)@ == old(self)@.union(ancestry(path@)),
    {
        let n = path.len();
        let mut k: usize = 0;
        assert(self@ =~= old(self)@.union(ancestry_below(path@, 0)));
        while k < n
            invariant
                k <= n,
                n == path@.len(),
                self@ == old(self)@.union(ancestry_below(path@, k as int)),
            decreases n - k,
        {
            let dir = path.prefix(k);
            proof {
                lemma_ancestry_step(path@, k as int);
            }
            self.insert(dir);
            assert(self@ =~= old(self)@.union(ancestry_below(path@, k as int + 1)));
            k += 1;
        }
        proof {
            lemma_ancestry_step(path@, n as int);
            assert(path@.take(n as int) == path@);
            assert(ancestry_below(path@, n as int + 1) =~= ancestry(path@));
        }
        self.insert(path.clone());
        assert(self@ =~= old(self)@.union(ancestry(path@)));
    }

    /// Adds every path of `other`.
    pub fn merge(&mut self, other: &PathSet)
        ensures
            final(self)@ == old(self)@.union(other@),
    {
        let mut i: usize = 0;
        assert(views(other.items@).take(0).to_set() =~= Set::<Seq<Seq<char>>>::empty());
        assert(self@ =~= old(self)@.union(views(other.items@).take(0).to_set()));
        while i < other.items.len()
            invariant
                i <= other.items@.len(),
                self@ == old(self)@.union(views(other.items@).take(i as int).to_set()),
            decreases other.items@.len() - i,
        {
            let item = other.items[i].clone();
            proof {
                assert(views(other.items@).take(i as int + 1) == views(other.items@).take(
                    i as int,
                ).push(item@));
                views(other.items@).take(i as int).lemma_push_to_set_commute(item@);
            }
            self.insert(item);
            assert(self@ =~= old(self)@.union(views(other.items@).take(i as int + 1).to_set()));
            i += 1;
        }
        assert(views(other.items@).take(i as int) == views(other.items@));
    }
}

} // verus!
