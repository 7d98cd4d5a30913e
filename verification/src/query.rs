//! The answers of version control: how a query ended, what went wrong, and
//! the paths that an answer lists.

use crate::path::{joined, names, FsPath};
use crate::pathset::views;
use crate::text::{
    chars_of, decode_lossy, split, split_ranges, string_of, trim, trim_range, trimmed, utf8_lossy,
};
use vstd::prelude::*;
use vstd::utf8::{decode_utf8, valid_utf8};

verus! {

/// The queries that are put to version control.
#[derive(Debug, Clone, Copy, PartialEq, Eq, Structural)]
pub enum Query {
    /// Where the repository has its root.
    RepoRoot,
    /// What differs from the reference.
    Diff,
    /// What is not tracked.
    Untracked,
    /// What is staged and differs from the reference.
    Staged,
}

/// How a query ended.
#[derive(Debug)]
pub enum QueryResult {
    /// The program could not be started.
    Unavailable { reason: String },
    /// The program ran and ended, well or not, with this output.
    Exited { success: bool, stdout: Vec<u8>, stderr: Vec<u8> },
}

/// The answers to the three queries of one refresh.
#[derive(Debug)]
pub struct ChangeReport {
    pub diff: QueryResult,
    pub untracked: QueryResult,
    pub staged: QueryResult,
}

/// What can go wrong with version control.
#[derive(Debug)]
pub enum GitError {
    /// No repository was found at the place that was asked about.
    RepositoryResolution { detail: String },
    /// A query that cannot be done without did not start, or ended in
    /// failure.
    Subprocess { query: Query, started: bool, detail: String },
}

/// The words of the command that puts `query`, after the name of the
/// program; `base_ref` is the reference to hold the working tree against.
pub open spec fn arguments_of(query: Query, base_ref: Seq<char>) -> Seq<Seq<char>> {
    match query {
        Query::RepoRoot => seq!["rev-parse"@, "--show-toplevel"@],
        Query::Diff => seq!["diff"@, "--name-only"@, base_ref],
        Query::Untracked => seq!["ls-files"@, "--others"@, "--exclude-standard"@],
        Query::Staged => seq!["diff"@, "--name-only"@, "--cached"@, base_ref],
    }
}

/// The command that puts `query`, as it is named in messages.
pub open spec fn command_of(query: Query) -> Seq<char> {
    match query {
        Query::RepoRoot => "git rev-parse"@,
        Query::Diff => "git diff"@,
        Query::Untracked => "git ls-files"@,
        Query::Staged => "git diff --cached"@,
    }
}

/// Whether a line of a listing names a path: a blank line does not.
pub open spec fn names_path() -> spec_fn(Seq<char>) -> bool {
    |line: Seq<char>| line.len() > 0
}

/// The names among `lines`: each line without the white space around it,
/// but for the lines that are blank.
pub open spec fn names_in(lines: Seq<Seq<char>>) -> Seq<Seq<char>> {
    lines.map_values(|line: Seq<char>| trim(line)).filter(names_path())
}

/// The names that a listing holds, one to a line.
pub open spec fn listed(listing: Seq<char>) -> Seq<Seq<char>> {
    names_in(split(listing, '\n'))
}

/// Each of `names`, adjoined to `root`.
pub open spec fn adjoined(root: Seq<Seq<char>>, names: Seq<Seq<char>>) -> Seq<Seq<Seq<char>>> {
    names.map_values(|name: Seq<char>| joined(root, name))
}

/// The paths that a listing reports: each of its names, adjoined to `root`.
pub open spec fn reported(root: Seq<Seq<char>>, listing: Seq<char>) -> Seq<Seq<Seq<char>>> {
    adjoined(root, listed(listing))
}

/// The paths that three listings report, one listing after the other.
pub open spec fn listed_in(
    root: Seq<Seq<char>>,
    diff: Seq<char>,
    untracked: Seq<char>,
    staged: Seq<char>,
) -> Seq<Seq<Seq<char>>> {
    reported(root, diff) + reported(root, untracked) + reported(root, staged)
}

/// The paths that the three answers of a refresh report, one answer after
/// the other. An answer that failed reports none.
pub open spec fn report_paths(root: Seq<Seq<char>>, report: ChangeReport) -> Seq<Seq<Seq<char>>> {
    listed_in(root, report.diff.listing(), report.untracked.listing(), report.staged.listing())
}

impl Query {
    /// The words of the command that puts this query, after the name of
    /// the program.
    pub fn arguments(self, base_ref: &str) -> (words: Vec<String>)
        ensures
            names(words@) == arguments_of(self, base_ref@),
    {
        let mut words: Vec<String> = Vec::new();
        match self {
            Query::RepoRoot => {
                words.push(String::from_str("rev-parse"));
                words.push(String::from_str("--show-toplevel"));
            },
            Query::Diff => {
                words.push(String::from_str("diff"));
                words.push(String::from_str("--name-only"));
                words.push(String::from_str(base_ref));
            },
            Query::Untracked => {
                words.push(String::from_str("ls-files"));
                words.push(String::from_str("--others"));
                words.push(String::from_str("--exclude-standard"));
            },
            Query::Staged => {
                words.push(String::from_str("diff"));
                words.push(String::from_str("--name-only"));
                words.push(String::from_str("--cached"));
                words.push(String::from_str(base_ref));
            },
        }
        assert(names(words@) =~= arguments_of(self, base_ref@));
        words
    }

    /// The command that puts this query, as it is named in messages.
    pub fn command(self) -> (name: &'static str)
        ensures
            name@ == command_of(self),
    {
        match self {
            Query::RepoRoot => "git rev-parse",
            Query::Diff => "git diff",
            Query::Untracked => "git ls-files",
            Query::Staged => "git diff --cached",
        }
    }
}

impl QueryResult {
    /// Whether the query ran and ended well.
    pub open spec fn succeeded(self) -> bool {
        self matches QueryResult::Exited { success, .. } && success
    }

    /// Whether the query got as far as running.
    pub open spec fn started(self) -> bool {
        self is Exited
    }

    /// The text that a query gave: its standard output, decoded with loss
    /// where it is no text. A query that failed gave none.
    pub open spec fn listing(self) -> Seq<char> {
        match self {
            QueryResult::Exited { success, stdout, .. } => if success {
                utf8_lossy(stdout@)
            } else {
                Seq::empty()
            },
            QueryResult::Unavailable { .. } => Seq::empty(),
        }
    }

    /// What a query that failed said of its failure: the reason why it did
    /// not start, or its standard error without the white space around it.
    pub open spec fn complaint(self) -> Seq<char> {
        match self {
            QueryResult::Exited { stderr, .. } => trim(utf8_lossy(stderr@)),
            QueryResult::Unavailable { reason } => reason@,
        }
    }

    /// The bytes of the standard output of a query that ran; none for one
    /// that did not start.
    pub open spec fn out_bytes(self) -> Seq<u8> {
        match self {
            QueryResult::Exited { stdout, .. } => stdout@,
            QueryResult::Unavailable { .. } => Seq::empty(),
        }
    }

    /// The bytes of the standard error of a query that ran; none for one
    /// that did not start.
    pub open spec fn err_bytes(self) -> Seq<u8> {
        match self {
            QueryResult::Exited { stderr, .. } => stderr@,
            QueryResult::Unavailable { .. } => Seq::empty(),
        }
    }

    /// Whether the query ran and ended well.
    pub fn is_success(&self) -> (b: bool)
        ensures
            b == self.succeeded(),
    {
        match self {
            QueryResult::Exited { success, .. } => *success,
            QueryResult::Unavailable { .. } => false,
        }
    }

    /// The text that the query gave, or none where it failed. Output that
    /// is valid UTF-8 gives the text that it encodes.
    pub fn listing_text(&self) -> (text: String)
        ensures
            text@ == self.listing(),
            self.succeeded() && valid_utf8(self.out_bytes()) ==> text@ == decode_utf8(
                self.out_bytes(),
            ),
    {
        match self.output() {
            Some(text) => text,
            None => String::new(),
        }
    }

    /// The text that the query gave, if it ended well. Output that is valid
    /// UTF-8 gives the text that it encodes.
    pub fn output(&self) -> (text: Option<String>)
        ensures
            text is Some <==> self.succeeded(),
            text matches Some(text) ==> text@ == self.listing(),
            text matches Some(text) ==> (valid_utf8(self.out_bytes()) ==> text@ == decode_utf8(
                self.out_bytes(),
            )),
    {
        match self {
            QueryResult::Exited { success, stdout, .. } => {
                if *success {
                    Some(decode_lossy(stdout))
                } else {
                    None
                }
            },
            QueryResult::Unavailable { .. } => None,
        }
    }

    /// What the query said of its failure. Standard error that is valid
    /// UTF-8 gives the text that it encodes, without the white space around
    /// it.
    pub fn complain(&self) -> (detail: String)
        ensures
            detail@ == self.complaint(),
            self.started() && valid_utf8(self.err_bytes()) ==> detail@ == trim(
                decode_utf8(self.err_bytes()),
            ),
    {
        match self {
            QueryResult::Exited { stderr, .. } => {
                let text = decode_lossy(stderr);
                trimmed(text.as_str())
            },
            QueryResult::Unavailable { reason } => reason.clone(),
        }
    }

    /// The error that stands for the failure of this answer to `query`.
    pub fn failure(&self, query: Query) -> (error: GitError)
        ensures
            error.is_failure_of(query, *self),
    {
        let started = match self {
            QueryResult::Exited { .. } => true,
            QueryResult::Unavailable { .. } => false,
        };
        GitError::Subprocess { query, started, detail: self.complain() }
    }
}

impl GitError {
    /// Whether this error reports that the answer `result` to `query` was a
    /// failure, with what the query said of it.
    pub open spec fn is_failure_of(self, query: Query, result: QueryResult) -> bool {
        &&& self matches GitError::Subprocess { query: asked, started, detail }
        &&& asked == query
        &&& started == result.started()
        &&& detail@ == result.complaint()
    }

    /// The message of this error, as text.
    pub open spec fn message_text(self) -> Seq<char> {
        match self {
            GitError::RepositoryResolution { detail } => "Failed to find Git repository root: "@
                + detail@,
            GitError::Subprocess { query, started, detail } => if started {
                command_of(query) + " failed: "@ + detail@
            } else {
                "Failed to execute "@ + command_of(query) + ": "@ + detail@
            },
        }
    }

    /// The message of this error: what failed, and what was said of it.
    pub fn message(&self) -> (text: String)
        ensures
            text@ == self.message_text(),
    {
        match self {
            GitError::RepositoryResolution { detail } => {
                let mut text = String::from_str("Failed to find Git repository root: ");
                text.append(detail.as_str());
                text
            },
            GitError::Subprocess { query, started, detail } => {
                if *started {
                    let mut text = String::from_str(query.command());
                    text.append(" failed: ");
                    text.append(detail.as_str());
                    text
                } else {
                    let mut text = String::from_str("Failed to execute ");
                    text.append(query.command());
                    text.append(": ");
                    text.append(detail.as_str());
                    text
                }
            },
        }
    }

    /// Whether this error reports that no repository was found, with what
    /// the query `result` said of it.
    pub open spec fn is_unresolved(self, result: QueryResult) -> bool {
        self matches GitError::RepositoryResolution { detail } && detail@ == result.complaint()
    }
}

impl ChangeReport {
    /// The paths that the three answers name, one answer after the other,
    /// each adjoined to `root`. An answer that failed names none.
    pub fn paths(&self, root: &FsPath) -> (paths: Vec<FsPath>)
        ensures
            views(paths@) == report_paths(root@, *self),
    {
        let diff = self.diff.listing_text();
        let untracked = self.untracked.listing_text();
        let staged = self.staged.listing_text();
        listed_paths(root, diff.as_str(), untracked.as_str(), staged.as_str())
    }
}

/// The paths that three listings report, one listing after the other: what
/// differs from the reference, what is untracked, what is staged.
pub fn listed_paths(root: &FsPath, diff: &str, untracked: &str, staged: &str) -> (paths: Vec<
    FsPath,
>)
    ensures
        views(paths@) == listed_in(root@, diff@, untracked@, staged@),
{
    let mut paths = reported_paths(root, diff);
    let mut more = reported_paths(root, untracked);
    let mut last = reported_paths(root, staged);
    assert(views(paths@ + more@) == views(paths@) + views(more@));
    assert(views(paths@ + more@ + last@) == views(paths@ + more@) + views(last@));
    paths.append(&mut more);
    paths.append(&mut last);
    paths
}

/// The paths that a listing reports: for each line that is not blank, the
/// name on it, adjoined to `root`.
pub fn reported_paths(root: &FsPath, listing: &str) -> (paths: Vec<FsPath>)
    ensures
        views(paths@) == reported(root@, listing@),
{
    let chars = chars_of(listing);
    let ghost lines = split(chars@, '\n');
    let ranges = split_ranges(&chars, '\n');
    let mut paths: Vec<FsPath> = Vec::new();
    let mut k: usize = 0;
    proof {
        reveal(Seq::filter);
        assert(names_in(lines.take(0)) == Seq::<Seq<char>>::empty());
        assert(views(paths@) == adjoined(root@, names_in(lines.take(0))));
    }
    while k < ranges.len()
        invariant
            k <= ranges@.len(),
            ranges@.len() == lines.len(),
            forall|j: int|
                #![trigger ranges@[j]]
                0 <= j < ranges@.len() ==> {
                    &&& ranges@[j].0 <= ranges@[j].1 <= chars@.len()
                    &&& chars@.subrange(ranges@[j].0 as int, ranges@[j].1 as int) == lines[j]
                },
            views(paths@) == adjoined(root@, names_in(lines.take(k as int))),
        decreases ranges@.len() - k,
    {
        let (from, to) = ranges[k];
        let (a, b) = trim_range(&chars, from, to);
        let ghost line = lines[k as int];
        let ghost before = lines.take(k as int);
        proof {
            assert(lines.take(k as int + 1) == before.push(line));
            before.lemma_push_map_commute(|line: Seq<char>| trim(line), line);
            before.map_values(|line: Seq<char>| trim(line)).lemma_filter_push(
                trim(line),
                names_path(),
            );
        }
        if b > a {
            let name = string_of(&chars, a, b);
            let path = root.join(name.as_str());
            proof {
                names_in(before).lemma_push_map_commute(
                    |name: Seq<char>| joined(root@, name),
                    name@,
                );
                paths@.lemma_push_map_commute(|item: FsPath| item@, path);
            }
            paths.push(path);
        }
        k += 1;
    }
    assert(lines.take(k as int) == lines);
    paths
}

} // verus!
