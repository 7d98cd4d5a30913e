use git_filter::query::{listed_paths, reported_paths};
use git_filter::{FsPath, GitError, GitFilter, Query, QueryResult};

fn exited(success: bool, stdout: &str, stderr: &str) -> QueryResult {
    QueryResult::Exited {
        success,
        stdout: stdout.as_bytes().to_vec(),
        stderr: stderr.as_bytes().to_vec(),
    }
}

fn texts(paths: &Vec<FsPath>) -> Vec<String> {
    paths.iter().map(|path| path.to_text()).collect()
}

#[test]
fn listing_names_one_path_to_a_line() {
    let root = FsPath::parse("/repo");
    let paths = reported_paths(&root, "src/a.lua\nsrc/b.lua\n");
    assert_eq!(texts(&paths), vec!["/repo/src/a.lua", "/repo/src/b.lua"]);
}

#[test]
fn listing_trims_lines_and_skips_blank_ones() {
    let root = FsPath::parse("/repo");
    let paths = reported_paths(&root, "\n  src/a.lua \r\n\t\n\nsrc/dir with space/b.lua\n   \n");
    assert_eq!(texts(&paths), vec!["/repo/src/a.lua", "/repo/src/dir with space/b.lua"]);
    assert!(reported_paths(&root, "").is_empty());
    assert!(reported_paths(&root, "\n\n \n").is_empty());
    // no line end after the last name
    assert_eq!(texts(&reported_paths(&root, "x")), vec!["/repo/x"]);
}

#[test]
fn listing_keeps_the_order_and_the_repeats() {
    let root = FsPath::root();
    let paths = reported_paths(&root, "b\na\nb\n");
    assert_eq!(texts(&paths), vec!["/b", "/a", "/b"]);
}

#[test]
fn output_is_decoded_with_loss() {
    let result = QueryResult::Exited {
        success: true,
        stdout: vec![b's', 0xFF, b'/', b'a', b'\n'],
        stderr: Vec::new(),
    };
    assert_eq!(result.output().unwrap(), "s\u{FFFD}/a\n");
    let bytes = "h\u{e9}".as_bytes().to_vec();
    let result = QueryResult::Exited { success: true, stdout: bytes, stderr: Vec::new() };
    assert_eq!(result.output().unwrap(), "h\u{e9}");
}

#[test]
fn output_is_there_only_after_success() {
    assert!(exited(true, "", "").is_success());
    assert_eq!(exited(true, "x", "").output(), Some("x".to_string()));
    assert!(!exited(false, "x", "").is_success());
    assert_eq!(exited(false, "x", "").output(), None);
    let missing = QueryResult::Unavailable { reason: "no such file".to_string() };
    assert!(!missing.is_success());
    assert_eq!(missing.output(), None);
}

#[test]
fn complaint_is_the_trimmed_standard_error_or_the_reason() {
    assert_eq!(exited(false, "", "  fatal: bad revision\n").complain(), "fatal: bad revision");
    let missing = QueryResult::Unavailable { reason: "no such file".to_string() };
    assert_eq!(missing.complain(), "no such file");
}

#[test]
fn repo_root_is_the_trimmed_output() {
    let found = GitFilter::find_repo_root(&exited(true, "/home/me/project\n", "")).unwrap();
    assert_eq!(found.to_text(), "/home/me/project");
    let found = GitFilter::find_repo_root(&exited(true, "  /a/b  \n\n", "ignored")).unwrap();
    assert_eq!(found.to_text(), "/a/b");
}

#[test]
fn repo_root_is_unresolved_where_the_query_ends_in_failure() {
    let result = exited(false, "", "fatal: not a git repository\n");
    match GitFilter::find_repo_root(&result) {
        Err(GitError::RepositoryResolution { detail }) => {
            assert_eq!(detail, "fatal: not a git repository");
        }
        other => panic!("unexpected: {:?}", other),
    }
    let error = GitFilter::find_repo_root(&result).unwrap_err();
    assert_eq!(
        error.message(),
        "Failed to find Git repository root: fatal: not a git repository"
    );
}

#[test]
fn repo_root_query_that_did_not_start_is_a_subprocess_error() {
    let result = QueryResult::Unavailable { reason: "No such file or directory".to_string() };
    match GitFilter::find_repo_root(&result) {
        Err(GitError::Subprocess { query, started, detail }) => {
            assert_eq!(query, Query::RepoRoot);
            assert!(!started);
            assert_eq!(detail, "No such file or directory");
        }
        other => panic!("unexpected: {:?}", other),
    }
}

#[test]
fn failure_names_the_query_and_what_it_said() {
    let error = exited(false, "", "fatal: bad revision 'nope'\n").failure(Query::Diff);
    assert_eq!(error.message(), "git diff failed: fatal: bad revision 'nope'");
    let error = exited(false, "", "boom").failure(Query::Untracked);
    assert_eq!(error.message(), "git ls-files failed: boom");
    let missing = QueryResult::Unavailable { reason: "not found".to_string() };
    assert_eq!(missing.failure(Query::Diff).message(), "Failed to execute git diff: not found");
    assert_eq!(
        missing.failure(Query::Staged).message(),
        "Failed to execute git diff --cached: not found"
    );
    assert_eq!(
        missing.failure(Query::RepoRoot).message(),
        "Failed to execute git rev-parse: not found"
    );
}

#[test]
fn arguments_of_each_query() {
    assert_eq!(Query::RepoRoot.arguments("HEAD"), vec!["rev-parse", "--show-toplevel"]);
    assert_eq!(Query::Diff.arguments("HEAD"), vec!["diff", "--name-only", "HEAD"]);
    assert_eq!(
        Query::Untracked.arguments("HEAD"),
        vec!["ls-files", "--others", "--exclude-standard"]
    );
    assert_eq!(
        Query::Staged.arguments("main"),
        vec!["diff", "--name-only", "--cached", "main"]
    );
    assert_eq!(Query::Untracked.command(), "git ls-files");
}

#[test]
fn listing_text_is_empty_after_failure() {
    assert_eq!(exited(true, "a\nb\n", "").listing_text(), "a\nb\n");
    assert_eq!(exited(false, "a\nb\n", "").listing_text(), "");
    let missing = QueryResult::Unavailable { reason: "gone".to_string() };
    assert_eq!(missing.listing_text(), "");
}

#[test]
fn listed_paths_of_three_listings_come_in_order() {
    let root = FsPath::parse("/repo");
    let paths = listed_paths(&root, "b\na\n", "", " c \n");
    assert_eq!(texts(&paths), vec!["/repo/b", "/repo/a", "/repo/c"]);
    assert!(listed_paths(&root, "", "\n", " ").is_empty());
}

#[test]
fn report_names_the_paths_of_the_answers_that_ended_well() {
    let root = FsPath::parse("/repo");
    let report = git_filter::ChangeReport {
        diff: exited(true, "a\n", ""),
        untracked: exited(false, "b\n", "no"),
        staged: exited(true, "c\n", ""),
    };
    assert_eq!(texts(&report.paths(&root)), vec!["/repo/a", "/repo/c"]);
}
