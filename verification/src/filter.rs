//! The filter itself: the paths that differ from the reference at the last
//! refresh, and the paths that were acknowledged at any time in the session.

use crate::closure::{
    anchor_candidates, anchorage, canonical_all, expanded, expansion, lemma_anchorage_closed,
    lemma_canonical_is_located, lemma_canonical_push, lemma_expanded_closed, lemma_expanded_push,
    lemma_expansion_closed, lemma_located_push, lemma_meta_name_is_component,
    lemma_project_file_names, located_all, meta_candidates,
};
use crate::names::{is_init_file, meta_file_name};
use crate::path::{components, FsPath};
use crate::pathset::{ancestor_closed, reaches, views, PathSet};
use crate::query::{
    listed_in, listed_paths, report_paths, ChangeReport, GitError, Query, QueryResult,
};
use crate::snapshot::{canonical, FsFact, FsSnapshot};
use crate::text::{trim, trimmed};
use vstd::prelude::*;

verus! {

/// What a filter holds, as plain values.
pub struct FilterState {
    /// The root of the repository.
    pub repo_root: Seq<Seq<char>>,
    /// The reference that the working tree is held against.
    pub base_ref: Seq<char>,
    /// The paths that differed from the reference at the last refresh.
    pub changed: Set<Seq<Seq<char>>>,
    /// The paths that were acknowledged at any time in the session.
    pub acknowledged: Set<Seq<Seq<char>>>,
}

impl FilterState {
    /// The state at the start of a session: nothing changed, nothing
    /// acknowledged.
    pub open spec fn initial(repo_root: Seq<Seq<char>>, base_ref: Seq<char>) -> FilterState {
        FilterState { repo_root, base_ref, changed: Set::empty(), acknowledged: Set::empty() }
    }

    /// What holds of every state of a filter: with each acknowledged path
    /// the directories above it are acknowledged, and what changed at the
    /// last refresh is acknowledged.
    pub open spec fn valid(self) -> bool {
        &&& ancestor_closed(self.acknowledged)
        &&& self.changed.subset_of(self.acknowledged)
    }

    /// The state after the project at `path` was anchored.
    pub open spec fn anchored(
        self,
        fs: Map<Seq<Seq<char>>, FsFact>,
        path: Seq<Seq<char>>,
    ) -> FilterState {
        FilterState { acknowledged: self.acknowledged.union(anchorage(fs, path)), ..self }
    }

    /// The state after `path` was acknowledged by force.
    pub open spec fn forced(
        self,
        fs: Map<Seq<Seq<char>>, FsFact>,
        path: Seq<Seq<char>>,
    ) -> FilterState {
        FilterState { acknowledged: self.acknowledged.union(expansion(fs, path)), ..self }
    }

    /// The state after a refresh in which `paths` were reported: their
    /// closures are what changed, and they are acknowledged from now on.
    pub open spec fn refreshed(
        self,
        fs: Map<Seq<Seq<char>>, FsFact>,
        paths: Seq<Seq<Seq<char>>>,
    ) -> FilterState {
        FilterState {
            changed: expanded(fs, paths),
            acknowledged: self.acknowledged.union(expanded(fs, paths)),
            ..self
        }
    }

    /// The state after a refresh from `report`: where the difference query
    /// and the query for what is untracked ended well, the state after the
    /// paths of the report were reported; else the state as it was.
    pub open spec fn after_refresh(
        self,
        fs: Map<Seq<Seq<char>>, FsFact>,
        report: ChangeReport,
    ) -> FilterState {
        if report.diff.succeeded() && report.untracked.succeeded() {
            self.refreshed(fs, report_paths(self.repo_root, report))
        } else {
            self
        }
    }

    /// The state after one refresh for each of `rounds`, first to last. A
    /// round is what the filesystem said and what version control reported.
    pub open spec fn after_refreshes(
        self,
        rounds: Seq<(Map<Seq<Seq<char>>, FsFact>, ChangeReport)>,
    ) -> FilterState
        decreases rounds.len(),
    {
        if rounds.len() == 0 {
            self
        } else {
            self.after_refreshes(rounds.drop_last()).after_refresh(
                rounds.last().0,
                rounds.last().1,
            )
        }
    }

    /// Whether `path` is in scope: it is acknowledged, as it is written or
    /// in its normal form, or something below it is.
    pub open spec fn acknowledges(
        self,
        fs: Map<Seq<Seq<char>>, FsFact>,
        path: Seq<Seq<char>>,
    ) -> bool {
        reaches(self.acknowledged, canonical(fs, path)) || reaches(self.acknowledged, path)
    }
}

/// The outcome that a refresh owes to a report: the failure of the
/// difference query, or else that of the query for what is untracked, or
/// else none. A failure of the query for what is staged is put up with.
pub open spec fn refresh_outcome(report: ChangeReport, outcome: Result<(), GitError>) -> bool {
    if !report.diff.succeeded() {
        outcome matches Err(error) && error.is_failure_of(Query::Diff, report.diff)
    } else if !report.untracked.succeeded() {
        outcome matches Err(error) && error.is_failure_of(Query::Untracked, report.untracked)
    } else {
        outcome is Ok
    }
}

/// A filter that tracks which paths have changed since a reference of
/// version control. A path that was acknowledged once stays acknowledged for
/// the whole session, also when its content goes back to what the reference
/// has.
#[derive(Debug)]
pub struct GitFilter {
    /// The root of the repository.
    repo_root: FsPath,
    /// The reference to hold the working tree against.
    base_ref: String,
    /// The paths that differ from the reference now; replaced by each
    /// refresh.
    git_changed_paths: PathSet,
    /// The paths that were acknowledged at any time in this session.
    session_acknowledged_paths: PathSet,
}

impl View for GitFilter {
    type V = FilterState;

    closed spec fn view(&self) -> FilterState {
        FilterState {
            repo_root: self.repo_root@,
            base_ref: self.base_ref@,
            changed: self.git_changed_paths@,
            acknowledged: self.session_acknowledged_paths@,
        }
    }
}

impl GitFilter {
    #[verifier::type_invariant]
    spec fn inv(self) -> bool {
        self@.valid()
    }

    /// A filter for the repository at `repo_root`, held against `base_ref`.
    /// The project at `project_path` is anchored: it is acknowledged
    /// whatever version control says. Then the filter is refreshed from
    /// `report`; where that fails, no filter is made.
    pub fn new(
        repo_root: FsPath,
        base_ref: String,
        project_path: &FsPath,
        report: &ChangeReport,
        fs: &FsSnapshot,
    ) -> (made: Result<GitFilter, GitError>)
        ensures
            made is Ok <==> report.diff.succeeded() && report.untracked.succeeded(),
            made matches Ok(filter) ==> {
                &&& filter@ == FilterState::initial(repo_root@, base_ref@).anchored(
                    fs@,
                    project_path@,
                ).refreshed(fs@, report_paths(repo_root@, *report))
                &&& filter@.valid()
            },
            made matches Err(error) ==> refresh_outcome(*report, Err(error)),
    {
        let mut filter = GitFilter {
            repo_root,
            base_ref,
            git_changed_paths: PathSet::new(),
            session_acknowledged_paths: PathSet::new(),
        };
        filter.acknowledge_project_path(project_path, fs);
        match filter.refresh(report, fs) {
            Ok(()) => Ok(filter),
            Err(error) => Err(error),
        }
    }

    /// Takes both sets out and leaves empty ones.
    fn take_sets(&mut self) -> (sets: (PathSet, PathSet))
        ensures
            sets.0@ == old(self)@.changed,
            sets.1@ == old(self)@.acknowledged,
            old(self)@.valid(),
            final(self)@ == FilterState::initial(old(self)@.repo_root, old(self)@.base_ref),
    {
        proof {
            use_type_invariant(&*self);
        }
        let mut changed = PathSet::new();
        core::mem::swap(&mut self.git_changed_paths, &mut changed);
        let mut acknowledged = PathSet::new();
        core::mem::swap(&mut self.session_acknowledged_paths, &mut acknowledged);
        (changed, acknowledged)
    }

    /// Puts both sets in.
    fn put_sets(&mut self, changed: PathSet, acknowledged: PathSet)
        requires
            ancestor_closed(acknowledged@),
            changed@.subset_of(acknowledged@),
        ensures
            final(self)@ == (FilterState {
                changed: changed@,
                acknowledged: acknowledged@,
                ..old(self)@
            }),
    {
        proof {
            use_type_invariant(&*self);
        }
        let mut changed = changed;
        let mut acknowledged = acknowledged;
        let mut none = PathSet::new();
        core::mem::swap(&mut self.git_changed_paths, &mut none);
        core::mem::swap(&mut self.session_acknowledged_paths, &mut acknowledged);
        core::mem::swap(&mut self.git_changed_paths, &mut changed);
    }

    /// The paths that anchoring the project at `project_path` looks at: the
    /// path itself, which may be a directory or a project file; for a
    /// directory the project files in it; and the directory that holds the
    /// path.
    pub fn anchor_paths(project_path: &FsPath, fs: &FsSnapshot) -> (paths: Vec<FsPath>)
        ensures
            views(paths@) == anchor_candidates(fs@, project_path@),
    {
        let mut paths: Vec<FsPath> = Vec::new();
        paths.push(project_path.clone());
        if fs.is_dir(project_path) {
            proof {
                lemma_project_file_names();
            }
            paths.push(project_path.child(String::from_str("default.project.json")));
            paths.push(project_path.child(String::from_str("default.project.jsonc")));
        }
        if let Some(parent) = project_path.parent() {
            paths.push(parent);
        }
        assert(views(paths@) =~= anchor_candidates(fs@, project_path@));
        paths
    }

    /// Anchors the project at `project_path`: the path, for a directory the
    /// project files in it, and the directory that holds the path are
    /// acknowledged, each in its normal form and with every directory above
    /// it, whatever version control says.
    pub fn acknowledge_project_path(&mut self, project_path: &FsPath, fs: &FsSnapshot)
        ensures
            final(self)@ == old(self)@.anchored(fs@, project_path@),
            final(self)@.valid(),
    {
        let paths = GitFilter::anchor_paths(project_path, fs);
        let (changed, mut session) = self.take_sets();
        GitFilter::acknowledge_each(&paths, fs, &mut session);
        proof {
            lemma_anchorage_closed(fs@, project_path@);
        }
        self.put_sets(changed, session);
    }

    /// Acknowledges each of `paths` in its normal form, with the directories
    /// above it.
    fn acknowledge_each(paths: &Vec<FsPath>, fs: &FsSnapshot, acknowledged: &mut PathSet)
        ensures
            final(acknowledged)@ == old(acknowledged)@.union(located_all(fs@, views(paths@))),
    {
        let mut i: usize = 0;
        assert(acknowledged@ =~= old(acknowledged)@.union(
            located_all(fs@, views(paths@).take(0)),
        ));
        while i < paths.len()
            invariant
                i <= paths@.len(),
                acknowledged@ == old(acknowledged)@.union(
                    located_all(fs@, views(paths@).take(i as int)),
                ),
            decreases paths@.len() - i,
        {
            proof {
                lemma_located_push(fs@, views(paths@).take(i as int), views(paths@)[i as int]);
                assert(views(paths@).take(i as int + 1) == views(paths@).take(i as int).push(
                    views(paths@)[i as int],
                ));
            }
            acknowledged.insert_ancestry(&fs.normalize(&paths[i]));
            assert(acknowledged@ =~= old(acknowledged)@.union(
                located_all(fs@, views(paths@).take(i as int + 1)),
            ));
            i += 1;
        }
        assert(views(paths@).take(i as int) == views(paths@));
    }

    /// Reads the root of the repository from the answer to the query for
    /// it: the path that the output names, without the white space around
    /// it.
    pub fn find_repo_root(result: &QueryResult) -> (found: Result<FsPath, GitError>)
        ensures
            found is Ok <==> result.succeeded(),
            found matches Ok(root) ==> root@ == components(trim(result.listing())),
            found matches Err(error) ==> if result.started() {
                error.is_unresolved(*result)
            } else {
                error.is_failure_of(Query::RepoRoot, *result)
            },
    {
        match result.output() {
            Some(text) => {
                let line = trimmed(text.as_str());
                Ok(FsPath::parse(line.as_str()))
            },
            None => {
                match result {
                    QueryResult::Exited { .. } => Err(
                        GitError::RepositoryResolution { detail: result.complain() },
                    ),
                    QueryResult::Unavailable { .. } => Err(result.failure(Query::RepoRoot)),
                }
            },
        }
    }

    /// The paths that `report` names: those of the difference query, of the
    /// query for what is untracked and of the query for what is staged, each
    /// adjoined to the root of the repository. An answer that failed names
    /// none.
    pub fn reported_paths(&self, report: &ChangeReport) -> (paths: Vec<FsPath>)
        ensures
            views(paths@) == report_paths(self@.repo_root, *report),
    {
        report.paths(&self.repo_root)
    }

    /// Brings the filter up to date with what version control reports.
    ///
    /// The closures of the reported paths replace what counted as changed
    /// and are acknowledged for the rest of the session. Where the
    /// difference query or the query for what is untracked failed, the
    /// filter stays as it was and the failure is returned. A failure of the
    /// query for what is staged is put up with: it reports nothing.
    pub fn refresh(&mut self, report: &ChangeReport, fs: &FsSnapshot) -> (outcome: Result<
        (),
        GitError,
    >)
        ensures
            refresh_outcome(*report, outcome),
            outcome is Ok ==> final(self)@ == old(self)@.refreshed(
                fs@,
                report_paths(old(self)@.repo_root, *report),
            ),
            outcome is Err ==> final(self)@ == old(self)@,
            final(self)@ == old(self)@.after_refresh(fs@, *report),
            final(self)@.valid(),
    {
        proof {
            use_type_invariant(&*self);
        }
        let diff = match report.diff.output() {
            Some(listing) => listing,
            None => {
                return Err(report.diff.failure(Query::Diff));
            },
        };
        let untracked = match report.untracked.output() {
            Some(listing) => listing,
            None => {
                return Err(report.untracked.failure(Query::Untracked));
            },
        };
        let staged = report.staged.listing_text();
        self.refresh_from(diff.as_str(), untracked.as_str(), staged.as_str(), fs);
        Ok(())
    }

    /// Brings the filter up to date with three listings of paths: what
    /// differs from the reference, what is untracked and what is staged.
    ///
    /// The closures of the listed paths replace what counted as changed and
    /// are acknowledged for the rest of the session.
    pub fn refresh_from(&mut self, diff: &str, untracked: &str, staged: &str, fs: &FsSnapshot)
        ensures
            final(self)@ == old(self)@.refreshed(
                fs@,
                listed_in(old(self)@.repo_root, diff@, untracked@, staged@),
            ),
            final(self)@.valid(),
    {
        let paths = listed_paths(&self.repo_root, diff, untracked, staged);
        let mut git_changed = PathSet::new();
        // a path that more than one listing names is taken once
        let mut seen = PathSet::new();
        let mut i: usize = 0;
        assert(git_changed@ =~= expanded(fs@, views(paths@).take(0)));
        while i < paths.len()
            invariant
                i <= paths@.len(),
                git_changed@ == expanded(fs@, views(paths@).take(i as int)),
                forall|p: Seq<Seq<char>>| #[trigger]
                    seen@.contains(p) ==> expansion(fs@, p).subset_of(git_changed@),
            decreases paths@.len() - i,
        {
            proof {
                lemma_expanded_push(fs@, views(paths@).take(i as int), views(paths@)[i as int]);
                assert(views(paths@).take(i as int + 1) == views(paths@).take(i as int).push(
                    views(paths@)[i as int],
                ));
            }
            if seen.insert(paths[i].clone()) {
                self.acknowledge_path(&paths[i], fs, &mut git_changed);
            } else {
                assert(git_changed@ =~= git_changed@.union(expansion(fs@, paths@[i as int]@)));
            }
            i += 1;
        }
        assert(views(paths@).take(i as int) == views(paths@));

        // what changed now replaces what had changed, and is acknowledged
        // from now on
        let (_, mut session) = self.take_sets();
        session.merge(&git_changed);
        proof {
            lemma_expanded_closed(fs@, views(paths@));
        }
        self.put_sets(git_changed, session);
    }

    /// Acknowledges a path in its normal form, the directories above it,
    /// and the metadata files that belong to it.
    pub fn acknowledge_path(&self, path: &FsPath, fs: &FsSnapshot, acknowledged: &mut PathSet)
        ensures
            final(acknowledged)@ == old(acknowledged)@.union(expansion(fs@, path@)),
    {
        let normal = fs.normalize(path);
        acknowledged.insert_ancestry(&normal);
        self.acknowledge_meta_files(&normal, fs, acknowledged);

        // a metadata file that the filesystem keeps elsewhere brings the
        // directories above it
        let files = GitFilter::meta_files(&normal);
        GitFilter::acknowledge_each(&files, fs, acknowledged);
        proof {
            lemma_canonical_is_located(fs@, meta_candidates(normal@));
        }
        assert(acknowledged@ =~= old(acknowledged)@.union(expansion(fs@, path@)));
    }

    /// The metadata files that belong to `path`: the one beside it, named
    /// after its base name, and for an `init` file that of its directory.
    pub fn meta_files(path: &FsPath) -> (files: Vec<FsPath>)
        ensures
            views(files@) == meta_candidates(path@),
    {
        let mut files: Vec<FsPath> = Vec::new();
        if let Some(file_name) = path.file_name() {
            proof {
                lemma_meta_name_is_component(file_name@);
            }
            let beside = path.sibling(meta_file_name(file_name));
            proof {
                files@.lemma_push_map_commute(|item: FsPath| item@, beside);
            }
            files.push(beside);
            if is_init_file(file_name) {
                let above = path.sibling(String::from_str("init.meta.json"));
                proof {
                    files@.lemma_push_map_commute(|item: FsPath| item@, above);
                }
                files.push(above);
            }
        }
        assert(views(files@) =~= meta_candidates(path@));
        files
    }

    /// Acknowledges the metadata files that belong to `path`, each in its
    /// normal form, and nothing else.
    pub fn acknowledge_meta_files(
        &self,
        path: &FsPath,
        fs: &FsSnapshot,
        acknowledged: &mut PathSet,
    )
        ensures
            final(acknowledged)@ == old(acknowledged)@.union(
                canonical_all(fs@, meta_candidates(path@)),
            ),
    {
        let files = GitFilter::meta_files(path);
        let mut i: usize = 0;
        assert(acknowledged@ =~= old(acknowledged)@.union(
            canonical_all(fs@, views(files@).take(0)),
        ));
        while i < files.len()
            invariant
                i <= files@.len(),
                acknowledged@ == old(acknowledged)@.union(
                    canonical_all(fs@, views(files@).take(i as int)),
                ),
            decreases files@.len() - i,
        {
            proof {
                lemma_canonical_push(fs@, views(files@).take(i as int), views(files@)[i as int]);
                assert(views(files@).take(i as int + 1) == views(files@).take(i as int).push(
                    views(files@)[i as int],
                ));
            }
            acknowledged.insert(fs.normalize(&files[i]));
            assert(acknowledged@ =~= old(acknowledged)@.union(
                canonical_all(fs@, views(files@).take(i as int + 1)),
            ));
            i += 1;
        }
        assert(views(files@).take(i as int) == views(files@));
    }

    /// Whether a path is acknowledged, and so in scope.
    ///
    /// It is where the path, as it is written or in its normal form, or
    /// anything below it was acknowledged at any time in this session.
    pub fn is_acknowledged(&self, path: &FsPath, fs: &FsSnapshot) -> (b: bool)
        ensures
            b == self@.acknowledges(fs@, path@),
    {
        let session = &self.session_acknowledged_paths;
        let normal = fs.normalize(path);

        // the path itself, in its normal form
        if session.contains(&normal) {
            assert(normal@.is_prefix_of(normal@));
            return true;
        }
        // the path itself, as it is written

        if session.contains(path) {
            assert(path@.is_prefix_of(path@));
            return true;
        }
        // for a directory: anything below it

        session.reaches(&normal) || session.reaches(path)
    }

    /// How many paths are acknowledged.
    pub fn acknowledged_count(&self) -> (count: usize)
        ensures
            self@.acknowledged.finite(),
            count == self@.acknowledged.len(),
    {
        self.session_acknowledged_paths.len()
    }

    /// How many paths counted as changed at the last refresh.
    pub fn changed_count(&self) -> (count: usize)
        ensures
            self@.changed.finite(),
            count == self@.changed.len(),
    {
        self.git_changed_paths.len()
    }

    /// The reference that the working tree is held against.
    pub fn base_ref(&self) -> (reference: &str)
        ensures
            reference@ == self@.base_ref,
    {
        self.base_ref.as_str()
    }

    /// The root of the repository.
    pub fn repo_root(&self) -> (root: &FsPath)
        ensures
            root@ == self@.repo_root,
    {
        &self.repo_root
    }

    /// Acknowledges a path by force: its closure is acknowledged whatever
    /// version control says.
    pub fn force_acknowledge(&mut self, path: &FsPath, fs: &FsSnapshot)
        ensures
            final(self)@ == old(self)@.forced(fs@, path@),
            final(self)@.valid(),
    {
        let mut acknowledged = PathSet::new();
        self.acknowledge_path(path, fs, &mut acknowledged);
        assert(acknowledged@ =~= expansion(fs@, path@));

        let (changed, mut session) = self.take_sets();
        session.merge(&acknowledged);
        proof {
            lemma_expansion_closed(fs@, path@);
        }
        self.put_sets(changed, session);
    }
}

} // verus!
