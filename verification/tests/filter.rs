use git_filter::{ChangeReport, FsPath, FsSnapshot, GitError, GitFilter, PathSet, Query, QueryResult};

fn ok(stdout: &str) -> QueryResult {
    QueryResult::Exited { success: true, stdout: stdout.as_bytes().to_vec(), stderr: Vec::new() }
}

fn failed(stderr: &str) -> QueryResult {
    QueryResult::Exited { success: false, stdout: Vec::new(), stderr: stderr.as_bytes().to_vec() }
}

fn report(diff: &str, untracked: &str, staged: &str) -> ChangeReport {
    ChangeReport { diff: ok(diff), untracked: ok(untracked), staged: ok(staged) }
}

fn path(text: &str) -> FsPath {
    FsPath::parse(text)
}

/// A filter on the repository at `/repo`, anchored at the project file
/// `/repo/default.project.json`, after a first refresh from `first`.
fn session(first: &ChangeReport) -> GitFilter {
    let fs = FsSnapshot::new();
    GitFilter::new(
        path("/repo"),
        "HEAD".to_string(),
        &path("/repo/default.project.json"),
        first,
        &fs,
    )
    .unwrap()
}

fn scenario_a() -> GitFilter {
    session(&report("src/a.lua\n", "src/b.lua\n", ""))
}

#[test]
fn scenario_a_changed_and_untracked_paths_are_acknowledged() {
    let filter = scenario_a();
    let fs = FsSnapshot::new();
    assert_eq!(filter.base_ref(), "HEAD");
    assert!(filter.is_acknowledged(&path("/repo/src/a.lua"), &fs));
    assert!(filter.is_acknowledged(&path("/repo/src/b.lua"), &fs));
    assert!(filter.is_acknowledged(&path("/repo/src"), &fs));
    assert!(filter.is_acknowledged(&path("/repo/src/a.meta.json"), &fs));
    assert!(!filter.is_acknowledged(&path("/repo/src/c.lua"), &fs));
}

#[test]
fn scenario_a_with_the_root_of_the_filesystem_as_repository() {
    let fs = FsSnapshot::new();
    let first = report("src/a.lua\n", "src/b.lua\n", "");
    let filter =
        GitFilter::new(FsPath::root(), "HEAD".to_string(), &path("project"), &first, &fs).unwrap();
    assert!(filter.is_acknowledged(&path("src/a.lua"), &fs));
    assert!(filter.is_acknowledged(&path("src/b.lua"), &fs));
    assert!(filter.is_acknowledged(&path("src"), &fs));
    assert!(filter.is_acknowledged(&path("src/a.meta.json"), &fs));
    assert!(!filter.is_acknowledged(&path("src/c.lua"), &fs));
}

#[test]
fn scenario_b_a_reverted_path_stays_acknowledged() {
    let mut filter = scenario_a();
    let fs = FsSnapshot::new();
    let count = filter.acknowledged_count();
    filter.refresh(&report("", "src/b.lua\n", ""), &fs).unwrap();
    assert!(filter.is_acknowledged(&path("/repo/src/a.lua"), &fs));
    assert!(filter.is_acknowledged(&path("/repo/src/a.meta.json"), &fs));
    assert_eq!(filter.acknowledged_count(), count);
    // what counts as changed is replaced
    assert!(filter.changed_count() < count);
}

#[test]
fn scenario_c_a_failed_staged_query_is_put_up_with() {
    let fs = FsSnapshot::new();
    let with_failure = ChangeReport {
        diff: ok("src/a.lua\n"),
        untracked: ok("src/b.lua\n"),
        staged: failed("fatal: bad revision\n"),
    };
    let filter = session(&with_failure);
    let plain = scenario_a();
    assert_eq!(filter.acknowledged_count(), plain.acknowledged_count());
    assert_eq!(filter.changed_count(), plain.changed_count());
    assert!(filter.is_acknowledged(&path("/repo/src/a.lua"), &fs));
    assert!(filter.is_acknowledged(&path("/repo/src/b.lua"), &fs));
    assert!(!filter.is_acknowledged(&path("/repo/src/c.lua"), &fs));
}

#[test]
fn staged_query_that_did_not_start_is_put_up_with_too() {
    let mut filter = scenario_a();
    let fs = FsSnapshot::new();
    let next = ChangeReport {
        diff: ok(""),
        untracked: ok(""),
        staged: QueryResult::Unavailable { reason: "gone".to_string() },
    };
    assert!(filter.refresh(&next, &fs).is_ok());
    assert_eq!(filter.changed_count(), 0);
}

#[test]
fn staged_paths_are_acknowledged() {
    let filter = session(&report("", "", "lib/staged.luau\n"));
    let fs = FsSnapshot::new();
    assert!(filter.is_acknowledged(&path("/repo/lib/staged.luau"), &fs));
    assert!(filter.is_acknowledged(&path("/repo/lib/staged.meta.json"), &fs));
    assert!(filter.is_acknowledged(&path("/repo/lib"), &fs));
}

#[test]
fn failed_diff_fails_the_refresh_and_leaves_the_filter_as_it_was() {
    let mut filter = scenario_a();
    let fs = FsSnapshot::new();
    let acknowledged = filter.acknowledged_count();
    let changed = filter.changed_count();
    let next = ChangeReport {
        diff: failed("fatal: bad revision 'HEAD'\n"),
        untracked: ok("src/new.lua\n"),
        staged: ok("src/staged.lua\n"),
    };
    match filter.refresh(&next, &fs) {
        Err(GitError::Subprocess { query, started, detail }) => {
            assert_eq!(query, Query::Diff);
            assert!(started);
            assert_eq!(detail, "fatal: bad revision 'HEAD'");
        }
        other => panic!("unexpected: {:?}", other),
    }
    assert_eq!(filter.acknowledged_count(), acknowledged);
    assert_eq!(filter.changed_count(), changed);
    assert!(!filter.is_acknowledged(&path("/repo/src/new.lua"), &fs));
    assert!(filter.is_acknowledged(&path("/repo/src/a.lua"), &fs));
}

#[test]
fn failed_untracked_query_fails_the_refresh() {
    let mut filter = scenario_a();
    let fs = FsSnapshot::new();
    let acknowledged = filter.acknowledged_count();
    let next = ChangeReport {
        diff: ok("src/new.lua\n"),
        untracked: QueryResult::Unavailable { reason: "not found".to_string() },
        staged: ok(""),
    };
    let error = filter.refresh(&next, &fs).unwrap_err();
    assert_eq!(error.message(), "Failed to execute git ls-files: not found");
    assert_eq!(filter.acknowledged_count(), acknowledged);
    assert!(!filter.is_acknowledged(&path("/repo/src/new.lua"), &fs));
}

#[test]
fn diff_failure_comes_before_untracked_failure() {
    let mut filter = scenario_a();
    let next = ChangeReport { diff: failed("d"), untracked: failed("u"), staged: failed("s") };
    let error = filter.refresh(&next, &FsSnapshot::new()).unwrap_err();
    assert_eq!(error.message(), "git diff failed: d");
}

#[test]
fn new_fails_where_the_first_refresh_fails() {
    let fs = FsSnapshot::new();
    let first = ChangeReport { diff: ok(""), untracked: failed("nope\n"), staged: ok("") };
    let made = GitFilter::new(path("/repo"), "HEAD".to_string(), &path("/repo"), &first, &fs);
    match made {
        Err(GitError::Subprocess { query, started, detail }) => {
            assert_eq!(query, Query::Untracked);
            assert!(started);
            assert_eq!(detail, "nope");
        }
        other => panic!("unexpected: {:?}", other),
    }
}

#[test]
fn accessors_give_back_what_the_filter_was_made_with() {
    let filter = session(&report("", "", ""));
    assert_eq!(filter.base_ref(), "HEAD");
    assert_eq!(filter.repo_root().to_text(), "/repo");
}

#[test]
fn refresh_is_idempotent() {
    let mut filter = scenario_a();
    let fs = FsSnapshot::new();
    let again = report("src/a.lua\n", "src/b.lua\n", "");
    let acknowledged = filter.acknowledged_count();
    let changed = filter.changed_count();
    filter.refresh(&again, &fs).unwrap();
    filter.refresh(&again, &fs).unwrap();
    assert_eq!(filter.acknowledged_count(), acknowledged);
    assert_eq!(filter.changed_count(), changed);
}

#[test]
fn refreshes_never_lose_an_acknowledged_path() {
    let mut filter = scenario_a();
    let fs = FsSnapshot::new();
    let rounds = [
        report("", "", ""),
        report("lib/x.luau\n", "", ""),
        report("", "docs/readme.md\n", "src/a.lua\n"),
        report("", "", ""),
    ];
    let held = [
        "/repo/src/a.lua",
        "/repo/src/b.lua",
        "/repo/src/a.meta.json",
        "/repo/src",
        "/repo",
        "/",
    ];
    let mut count = filter.acknowledged_count();
    for round in rounds.iter() {
        filter.refresh(round, &fs).unwrap();
        assert!(filter.acknowledged_count() >= count);
        count = filter.acknowledged_count();
        for text in held {
            assert!(filter.is_acknowledged(&path(text), &fs));
        }
    }
    assert!(filter.is_acknowledged(&path("/repo/lib/x.luau"), &fs));
    assert!(filter.is_acknowledged(&path("/repo/docs/readme.md"), &fs));
    assert_eq!(filter.changed_count(), 0);
}

#[test]
fn anchor_stays_acknowledged_whatever_is_reported() {
    let mut filter = session(&report("", "", ""));
    let fs = FsSnapshot::new();
    let anchor = path("/repo/default.project.json");
    assert!(filter.is_acknowledged(&anchor, &fs));
    assert!(filter.is_acknowledged(&path("/repo"), &fs));
    filter.refresh(&report("default.project.json\n", "", ""), &fs).unwrap();
    assert!(filter.is_acknowledged(&anchor, &fs));
    filter.refresh(&report("", "", ""), &fs).unwrap();
    assert!(filter.is_acknowledged(&anchor, &fs));
    let failing = ChangeReport { diff: failed("x"), untracked: ok(""), staged: ok("") };
    assert!(filter.refresh(&failing, &fs).is_err());
    assert!(filter.is_acknowledged(&anchor, &fs));
}

#[test]
fn anchoring_a_file_acknowledges_it_and_what_lies_above() {
    let filter = session(&report("", "", ""));
    let fs = FsSnapshot::new();
    // the project file, its directory, and all above: nothing else
    assert_eq!(filter.acknowledged_count(), 3);
    assert_eq!(filter.changed_count(), 0);
    assert!(!filter.is_acknowledged(&path("/repo/src"), &fs));
    assert!(!filter.is_acknowledged(&path("/repo/default.project.jsonc"), &fs));
    // no metadata file comes with an anchor
    assert!(!filter.is_acknowledged(&path("/repo/default.project.meta.json"), &fs));
}

#[test]
fn anchoring_a_directory_acknowledges_the_project_files_in_it() {
    let mut fs = FsSnapshot::new();
    let project = path("/repo/game");
    fs.record(project.clone(), project.clone(), true);
    let first = report("", "", "");
    let filter =
        GitFilter::new(path("/repo"), "HEAD".to_string(), &project, &first, &fs).unwrap();
    assert!(filter.is_acknowledged(&project, &fs));
    assert!(filter.is_acknowledged(&path("/repo/game/default.project.json"), &fs));
    assert!(filter.is_acknowledged(&path("/repo/game/default.project.jsonc"), &fs));
    assert!(filter.is_acknowledged(&path("/repo"), &fs));
    assert!(!filter.is_acknowledged(&path("/repo/game/src"), &fs));
    assert_eq!(filter.acknowledged_count(), 5);
}

#[test]
fn anchoring_goes_by_the_canonical_form_of_what_exists() {
    let mut fs = FsSnapshot::new();
    let project = path("/work/link");
    fs.record(project.clone(), path("/data/real"), true);
    fs.record(
        path("/work/link/default.project.json"),
        path("/data/real/default.project.json"),
        false,
    );
    fs.record(path("/work"), path("/work"), true);
    let first = report("", "", "");
    let filter =
        GitFilter::new(path("/data/real"), "HEAD".to_string(), &project, &first, &fs).unwrap();
    let none = FsSnapshot::new();
    assert!(filter.is_acknowledged(&path("/data/real"), &none));
    assert!(filter.is_acknowledged(&path("/data/real/default.project.json"), &none));
    // the project file that does not exist is kept as it is written
    assert!(filter.is_acknowledged(&path("/work/link/default.project.jsonc"), &none));
    assert!(filter.is_acknowledged(&path("/work"), &none));
    // asked as it is written, the link is found by its canonical form
    assert!(filter.is_acknowledged(&project, &fs));
    assert!(!filter.is_acknowledged(&path("/data/real/src"), &none));
}

#[test]
fn every_directory_above_an_acknowledged_path_is_acknowledged() {
    let mut filter = session(&report("a/b/c/d.lua\n", "", ""));
    let fs = FsSnapshot::new();
    filter.force_acknowledge(&path("/elsewhere/x/y.txt"), &fs);
    for text in [
        "/repo/a/b/c/d.lua",
        "/repo/a/b/c",
        "/repo/a/b",
        "/repo/a",
        "/repo",
        "/",
        "/elsewhere/x",
        "/elsewhere",
    ] {
        assert!(filter.is_acknowledged(&path(text), &fs));
    }
    let mut own = PathSet::new();
    filter.acknowledge_path(&path("/p/q/r.lua"), &fs, &mut own);
    for text in ["/", "/p", "/p/q", "/p/q/r.lua", "/p/q/r.meta.json"] {
        assert!(own.contains(&path(text)));
    }
    assert_eq!(own.len(), 5);
}

#[test]
fn metadata_files_come_with_their_source_files() {
    let mut filter = session(&report("", "", ""));
    let fs = FsSnapshot::new();
    filter.force_acknowledge(&path("/repo/src/foo.server.lua"), &fs);
    assert!(filter.is_acknowledged(&path("/repo/src/foo.meta.json"), &fs));
    assert!(!filter.is_acknowledged(&path("/repo/src/foo.server.meta.json"), &fs));
    assert!(!filter.is_acknowledged(&path("/repo/src/init.meta.json"), &fs));
    filter.force_acknowledge(&path("/repo/src/init.lua"), &fs);
    assert!(filter.is_acknowledged(&path("/repo/src/init.meta.json"), &fs));
}

#[test]
fn init_files_bring_the_metadata_file_of_their_directory() {
    let files = GitFilter::meta_files(&path("/repo/src/init.server.luau"));
    assert_eq!(files.len(), 2);
    assert_eq!(files[0].to_text(), "/repo/src/init.meta.json");
    assert_eq!(files[1].to_text(), "/repo/src/init.meta.json");
    let files = GitFilter::meta_files(&path("/repo/src/init.txt"));
    assert_eq!(files.len(), 2);
    assert_eq!(files[0].to_text(), "/repo/src/init.meta.json");
    let files = GitFilter::meta_files(&path("/repo/src/thing.model.json"));
    assert_eq!(files.len(), 1);
    assert_eq!(files[0].to_text(), "/repo/src/thing.model.meta.json");
    assert!(GitFilter::meta_files(&FsPath::root()).is_empty());
    assert!(GitFilter::meta_files(&path("/repo/..")).is_empty());
}

#[test]
fn acknowledge_meta_files_adds_only_the_metadata_files() {
    let filter = session(&report("", "", ""));
    let fs = FsSnapshot::new();
    let mut own = PathSet::new();
    filter.acknowledge_meta_files(&path("/r/src/init.spec.lua"), &fs, &mut own);
    assert!(own.contains(&path("/r/src/init.spec.meta.json")));
    assert!(own.contains(&path("/r/src/init.meta.json")));
    assert_eq!(own.len(), 2);
    // neither the path itself nor any directory above the metadata files
    assert!(!own.contains(&path("/r/src/init.spec.lua")));
    assert!(!own.contains(&path("/r/src")));
    assert!(!own.contains(&path("/r")));
    assert!(!own.contains(&path("/")));
}

#[test]
fn acknowledge_meta_files_takes_init_by_its_prefix_only() {
    let filter = session(&report("", "", ""));
    let fs = FsSnapshot::new();
    let mut own = PathSet::new();
    filter.acknowledge_meta_files(&path("/r/src/initial.lua"), &fs, &mut own);
    assert!(own.contains(&path("/r/src/initial.meta.json")));
    assert!(!own.contains(&path("/r/src/init.meta.json")));
    assert_eq!(own.len(), 1);
}

#[test]
fn acknowledge_meta_files_keeps_what_the_set_held() {
    let filter = session(&report("", "", ""));
    let fs = FsSnapshot::new();
    let mut own = PathSet::new();
    own.insert(path("/kept"));
    // both metadata files of `init.lua` are one and the same
    filter.acknowledge_meta_files(&path("/s/init.lua"), &fs, &mut own);
    assert!(own.contains(&path("/kept")));
    assert!(own.contains(&path("/s/init.meta.json")));
    assert_eq!(own.len(), 2);
    // a path without a file name has no metadata file
    filter.acknowledge_meta_files(&FsPath::root(), &fs, &mut own);
    filter.acknowledge_meta_files(&path("/s/.."), &fs, &mut own);
    assert_eq!(own.len(), 2);
}

#[test]
fn acknowledge_meta_files_takes_the_canonical_form_alone() {
    let filter = session(&report("", "", ""));
    let mut fs = FsSnapshot::new();
    fs.record(path("/r/src/a.meta.json"), path("/shared/meta/a.meta.json"), false);
    let mut own = PathSet::new();
    filter.acknowledge_meta_files(&path("/r/src/a.lua"), &fs, &mut own);
    assert!(own.contains(&path("/shared/meta/a.meta.json")));
    assert_eq!(own.len(), 1);
    // the directories above it come with the whole closure
    let mut whole = PathSet::new();
    filter.acknowledge_path(&path("/r/src/a.lua"), &fs, &mut whole);
    for text in ["/", "/r", "/r/src", "/r/src/a.lua", "/shared", "/shared/meta",
        "/shared/meta/a.meta.json"]
    {
        assert!(whole.contains(&path(text)));
    }
    assert_eq!(whole.len(), 7);
}

#[test]
fn force_acknowledge_does_not_touch_what_changed() {
    let mut filter = scenario_a();
    let fs = FsSnapshot::new();
    let changed = filter.changed_count();
    let acknowledged = filter.acknowledged_count();
    filter.force_acknowledge(&path("/repo/assets/logo.png"), &fs);
    assert_eq!(filter.changed_count(), changed);
    // the file, its metadata file and the directory that holds them
    assert_eq!(filter.acknowledged_count(), acknowledged + 3);
    assert!(filter.is_acknowledged(&path("/repo/assets/logo.png"), &fs));
    assert!(filter.is_acknowledged(&path("/repo/assets/logo.meta.json"), &fs));
    filter.force_acknowledge(&path("/repo/assets/logo.png"), &fs);
    assert_eq!(filter.acknowledged_count(), acknowledged + 3);
}

#[test]
fn reported_paths_exist_in_canonical_form() {
    let mut fs = FsSnapshot::new();
    fs.record(path("/repo/link/a.lua"), path("/repo/real/a.lua"), false);
    let mut filter = session(&report("", "", ""));
    filter.refresh(&report("link/a.lua\nlink/gone.lua\n", "", ""), &fs).unwrap();
    let none = FsSnapshot::new();
    assert!(filter.is_acknowledged(&path("/repo/real/a.lua"), &none));
    assert!(filter.is_acknowledged(&path("/repo/real/a.meta.json"), &none));
    assert!(filter.is_acknowledged(&path("/repo/real"), &none));
    // a path that is gone is kept as it is written
    assert!(filter.is_acknowledged(&path("/repo/link/gone.lua"), &none));
    assert!(filter.is_acknowledged(&path("/repo/link/gone.meta.json"), &none));
    // the link itself is known by its canonical form only
    assert!(!filter.is_acknowledged(&path("/repo/link/a.lua"), &none));
    assert!(filter.is_acknowledged(&path("/repo/link/a.lua"), &fs));
}

#[test]
fn a_path_reported_by_several_queries_counts_once() {
    let once = session(&report("src/a.lua\n", "", ""));
    let thrice = session(&report("src/a.lua\nsrc/a.lua\n", "src/a.lua\n", "src/a.lua\n"));
    assert_eq!(once.changed_count(), thrice.changed_count());
    assert_eq!(once.acknowledged_count(), thrice.acknowledged_count());
    // the file, its metadata file, and the three directories above
    assert_eq!(once.changed_count(), 5);
}

#[test]
fn reported_paths_are_those_of_all_three_queries() {
    let filter = session(&report("", "", ""));
    let next = ChangeReport {
        diff: ok("a\n\n b \n"),
        untracked: ok("c\n"),
        staged: failed("x"),
    };
    let paths = filter.reported_paths(&next);
    let texts: Vec<String> = paths.iter().map(|p| p.to_text()).collect();
    assert_eq!(texts, vec!["/repo/a", "/repo/b", "/repo/c"]);
    let all = ChangeReport { diff: ok("a\n"), untracked: ok("b\n"), staged: ok("c\r\n") };
    assert_eq!(filter.reported_paths(&all).len(), 3);
}

#[test]
fn output_that_is_no_text_is_recovered_with_loss() {
    let mut filter = session(&report("", "", ""));
    let fs = FsSnapshot::new();
    let next = ChangeReport {
        diff: QueryResult::Exited {
            success: true,
            stdout: vec![b's', b'r', b'c', b'/', 0xC3, b'.', b'l', b'u', b'a', b'\n'],
            stderr: Vec::new(),
        },
        untracked: ok(""),
        staged: ok(""),
    };
    assert!(filter.refresh(&next, &fs).is_ok());
    assert!(filter.is_acknowledged(&path("/repo/src/\u{FFFD}.lua"), &fs));
    assert!(filter.is_acknowledged(&path("/repo/src/\u{FFFD}.meta.json"), &fs));
}

#[test]
fn a_directory_is_acknowledged_through_what_lies_below_it() {
    let filter = session(&report("deep/down/file.txt\n", "", ""));
    let fs = FsSnapshot::new();
    assert!(filter.is_acknowledged(&path("/repo/deep"), &fs));
    assert!(filter.is_acknowledged(&path("/repo/deep/down"), &fs));
    assert!(!filter.is_acknowledged(&path("/repo/deep/down/file.txt/more"), &fs));
    assert!(!filter.is_acknowledged(&path("/repo/deep/dow"), &fs));
    assert!(!filter.is_acknowledged(&path("/repo/deep/down/other.txt"), &fs));
}

#[test]
fn refresh_from_listings_is_what_refresh_does_after_decoding() {
    let fs = FsSnapshot::new();
    let mut by_report = session(&report("", "", ""));
    let mut by_text = session(&report("", "", ""));
    by_report.refresh(&report("src/a.lua\n", "src/b.lua\n", "lib/c.luau\n"), &fs).unwrap();
    by_text.refresh_from("src/a.lua\n", "src/b.lua\n", "lib/c.luau\n", &fs);
    assert_eq!(by_text.acknowledged_count(), by_report.acknowledged_count());
    assert_eq!(by_text.changed_count(), by_report.changed_count());
    // two files with a metadata file each, one more, and four directories
    assert_eq!(by_text.changed_count(), 10);
    for text in ["/repo/src/a.lua", "/repo/src/b.meta.json", "/repo/lib/c.meta.json", "/repo/lib"] {
        assert!(by_text.is_acknowledged(&path(text), &fs));
    }
    by_text.refresh_from("", "", "", &fs);
    assert_eq!(by_text.changed_count(), 0);
    assert_eq!(by_text.acknowledged_count(), by_report.acknowledged_count());
}

#[test]
fn anchor_paths_are_the_path_the_project_files_and_the_parent() {
    let mut fs = FsSnapshot::new();
    let file = path("/repo/game/default.project.json");
    let texts = |paths: Vec<FsPath>| -> Vec<String> { paths.iter().map(|p| p.to_text()).collect() };
    assert_eq!(
        texts(GitFilter::anchor_paths(&file, &fs)),
        vec!["/repo/game/default.project.json", "/repo/game"]
    );
    let dir = path("/repo/game");
    fs.record(dir.clone(), dir.clone(), true);
    assert_eq!(
        texts(GitFilter::anchor_paths(&dir, &fs)),
        vec![
            "/repo/game",
            "/repo/game/default.project.json",
            "/repo/game/default.project.jsonc",
            "/repo"
        ]
    );
    assert_eq!(texts(GitFilter::anchor_paths(&FsPath::root(), &fs)), vec!["/"]);
}

#[test]
fn metadata_files_are_taken_in_their_canonical_form_too() {
    let mut fs = FsSnapshot::new();
    fs.record(path("/repo/src/a.meta.json"), path("/shared/meta/a.meta.json"), false);
    let mut filter = session(&report("", "", ""));
    filter.refresh(&report("src/a.lua\n", "", ""), &fs).unwrap();
    let none = FsSnapshot::new();
    assert!(filter.is_acknowledged(&path("/shared/meta/a.meta.json"), &none));
    assert!(filter.is_acknowledged(&path("/shared/meta"), &none));
    assert!(filter.is_acknowledged(&path("/shared"), &none));
    // as it is written, the metadata file is found through the filesystem
    assert!(!filter.is_acknowledged(&path("/repo/src/a.meta.json"), &none));
    assert!(filter.is_acknowledged(&path("/repo/src/a.meta.json"), &fs));
}

#[test]
fn a_path_is_found_as_it_is_written_when_its_canonical_form_is_not_acknowledged() {
    let mut filter = session(&report("", "", ""));
    let none = FsSnapshot::new();
    filter.refresh(&report("old/name.lua\n", "", ""), &none).unwrap();
    let mut fs = FsSnapshot::new();
    fs.record(path("/repo/old/name.lua"), path("/elsewhere/name.lua"), false);
    assert!(filter.is_acknowledged(&path("/repo/old/name.lua"), &fs));
    assert!(!filter.is_acknowledged(&path("/elsewhere/name.lua"), &fs));
}
