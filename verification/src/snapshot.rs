//! What the filesystem said of the paths that were looked up in it.

use crate::path::FsPath;
use vstd::prelude::*;

verus! {

/// What is known of a path that exists.
pub struct FsFact {
    /// The path in canonical form: absolute, with every link resolved.
    pub canonical: Seq<Seq<char>>,
    /// Whether the path leads to a directory.
    pub is_dir: bool,
}

/// The canonical form of `path` where `fs` knows it, or else `path` itself.
pub open spec fn canonical(fs: Map<Seq<Seq<char>>, FsFact>, path: Seq<Seq<char>>) -> Seq<
    Seq<char>,
> {
    if fs.contains_key(path) {
        fs[path].canonical
    } else {
        path
    }
}

/// Whether `fs` knows `path` as a directory.
pub open spec fn is_directory(fs: Map<Seq<Seq<char>>, FsFact>, path: Seq<Seq<char>>) -> bool {
    fs.contains_key(path) && fs[path].is_dir
}

/// One answer of the filesystem.
#[derive(Debug)]
struct Entry {
    path: FsPath,
    canonical: FsPath,
    is_dir: bool,
}

impl Entry {
    spec fn fact(self) -> FsFact {
        FsFact { canonical: self.canonical@, is_dir: self.is_dir }
    }
}

/// The facts that a list of answers holds; a later answer replaces an
/// earlier one on the same path.
spec fn facts(entries: Seq<Entry>) -> Map<Seq<Seq<char>>, FsFact>
    decreases entries.len(),
{
    if entries.len() == 0 {
        Map::empty()
    } else {
        facts(entries.drop_last()).insert(entries.last().path@, entries.last().fact())
    }
}

/// The last answer on a path is the one that counts.
proof fn lemma_facts_found(entries: Seq<Entry>, path: Seq<Seq<char>>, at: int)
    requires
        0 <= at < entries.len(),
        entries[at].path@ == path,
        forall|j: int| at < j < entries.len() ==> entries[j].path@ != path,
    ensures
        facts(entries).contains_key(path),
        facts(entries)[path] == entries[at].fact(),
    decreases entries.len(),
{
    if at < entries.len() - 1 {
        lemma_facts_found(entries.drop_last(), path, at);
    }
}

/// A path that no answer is about is not known.
proof fn lemma_facts_missing(entries: Seq<Entry>, path: Seq<Seq<char>>)
    requires
        forall|j: int| 0 <= j < entries.len() ==> entries[j].path@ != path,
    ensures
        !facts(entries).contains_key(path),
    decreases entries.len(),
{
    if entries.len() > 0 {
        lemma_facts_missing(entries.drop_last(), path);
    }
}

/// A record of what the filesystem answered: for each path that was found
/// to exist, its canonical form and whether it is a directory. A path that
/// is not in the record counts as one that does not exist.
#[derive(Debug)]
pub struct FsSnapshot {
    entries: Vec<Entry>,
}

impl View for FsSnapshot {
    type V = Map<Seq<Seq<char>>, FsFact>;

    closed spec fn view(&self) -> Map<Seq<Seq<char>>, FsFact> {
        facts(self.entries@)
    }
}

impl FsSnapshot {
    /// A record without any answer: nothing exists.
    pub fn new() -> (fs: FsSnapshot)
        ensures
            fs@ == Map::<Seq<Seq<char>>, FsFact>::empty(),
    {
        FsSnapshot { entries: Vec::new() }
    }

    /// Notes that `path` exists, with its canonical form and whether it is a
    /// directory. An earlier note on the same path is replaced.
    pub fn record(&mut self, path: FsPath, canonical: FsPath, is_dir: bool)
        ensures
            final(self)@ == old(self)@.insert(
                path@,
                FsFact { canonical: canonical@, is_dir: is_dir },
            ),
    {
        let entry = Entry { path, canonical, is_dir };
        assert(self.entries@.push(entry).drop_last() == self.entries@);
        self.entries.push(entry);
    }

    /// The place of the answer that counts for `path`.
    fn find(&self, path: &FsPath) -> (found: Option<usize>)
        ensures
            match found {
                Some(at) => at < self.entries@.len() && self@.contains_key(path@) && self@[path@]
                    == self.entries@[at as int].fact(),
                None => !self@.contains_key(path@),
            },
    {
        let mut i: usize = self.entries.len();
        while i > 0
            invariant
                i <= self.entries@.len(),
                forall|j: int| i <= j < self.entries@.len() ==> self.entries@[j].path@ != path@,
            decreases i,
        {
            if self.entries[i - 1].path.same(path) {
                proof {
                    lemma_facts_found(self.entries@, path@, i - 1);
                }
                return Some(i - 1);
            }
            i -= 1;
        }
        proof {
            lemma_facts_missing(self.entries@, path@);
        }
        None
    }

    /// The canonical form of `path` where it is known to exist, or else
    /// `path` as it is.
    pub fn normalize(&self, path: &FsPath) -> (normal: FsPath)
        ensures
            normal@ == canonical(self@, path@),
    {
        match self.find(path) {
            Some(at) => self.entries[at].canonical.clone(),
            None => path.clone(),
        }
    }

    /// Whether `path` is known to be a directory.
    pub fn is_dir(&self, path: &FsPath) -> (b: bool)
        ensures
            b == is_directory(self@, path@),
    {
        match self.find(path) {
            Some(at) => self.entries[at].is_dir,
            None => false,
        }
    }
}

} // verus!
