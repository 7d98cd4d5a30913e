//! What holds of a filter over a whole session.

use crate::closure::{
    anchor_candidates, anchorage, expansion, init_meta, lemma_anchorage_closed, lemma_expanded_closed,
    lemma_expansion_closed, located, meta_candidates, meta_sibling,
};
use crate::filter::FilterState;
use crate::names::is_init_name;
use crate::path::file_name_of;
use crate::pathset::reaches;
use crate::query::{report_paths, ChangeReport};
use crate::snapshot::{canonical, FsFact};
use vstd::prelude::*;

verus! {

/// A refresh from the same report, with the filesystem as it was, changes
/// nothing: what the first refresh left is what the second leaves.
pub proof fn lemma_refresh_idempotent(
    state: FilterState,
    fs: Map<Seq<Seq<char>>, FsFact>,
    report: ChangeReport,
)
    ensures
        state.after_refresh(fs, report).after_refresh(fs, report) == state.after_refresh(
            fs,
            report,
        ),
{
    let once = state.after_refresh(fs, report);
    let twice = once.after_refresh(fs, report);
    assert(twice.changed =~= once.changed);
    assert(twice.acknowledged =~= once.acknowledged);
}

/// A refresh, whether it goes well or fails, loses no acknowledged path.
pub proof fn lemma_refresh_monotonic(
    state: FilterState,
    fs: Map<Seq<Seq<char>>, FsFact>,
    report: ChangeReport,
)
    ensures
        state.acknowledged.subset_of(state.after_refresh(fs, report).acknowledged),
{
}

/// No sequence of refreshes loses an acknowledged path.
pub proof fn lemma_refreshes_monotonic(
    state: FilterState,
    rounds: Seq<(Map<Seq<Seq<char>>, FsFact>, ChangeReport)>,
)
    ensures
        state.acknowledged.subset_of(state.after_refreshes(rounds).acknowledged),
    decreases rounds.len(),
{
    if rounds.len() > 0 {
        lemma_refreshes_monotonic(state, rounds.drop_last());
        lemma_refresh_monotonic(
            state.after_refreshes(rounds.drop_last()),
            rounds.last().0,
            rounds.last().1,
        );
    }
}

/// After a refresh that went well, what changed is acknowledged.
pub proof fn lemma_changed_is_acknowledged(
    state: FilterState,
    fs: Map<Seq<Seq<char>>, FsFact>,
    paths: Seq<Seq<Seq<char>>>,
)
    ensures
        state.refreshed(fs, paths).changed.subset_of(state.refreshed(fs, paths).acknowledged),
{
}

/// A path that is in scope stays in scope through any sequence of
/// refreshes, whatever they report.
pub proof fn lemma_acknowledged_stays(
    state: FilterState,
    fs: Map<Seq<Seq<char>>, FsFact>,
    path: Seq<Seq<char>>,
    rounds: Seq<(Map<Seq<Seq<char>>, FsFact>, ChangeReport)>,
)
    requires
        state.acknowledges(fs, path),
    ensures
        state.after_refreshes(rounds).acknowledges(fs, path),
{
    lemma_refreshes_monotonic(state, rounds);
    let later = state.after_refreshes(rounds);
    if reaches(state.acknowledged, canonical(fs, path)) {
        let p = choose|p: Seq<Seq<char>>|
            state.acknowledged.contains(p) && #[trigger] canonical(fs, path).is_prefix_of(p);
        assert(later.acknowledged.contains(p));
    } else {
        let p = choose|p: Seq<Seq<char>>|
            state.acknowledged.contains(p) && #[trigger] path.is_prefix_of(p);
        assert(later.acknowledged.contains(p));
    }
}

/// An anchor is permanent: once the project at `path` is anchored, all that
/// the anchoring added is acknowledged after any sequence of refreshes, and
/// the path is in scope.
pub proof fn lemma_anchor_permanent(
    state: FilterState,
    fs: Map<Seq<Seq<char>>, FsFact>,
    path: Seq<Seq<char>>,
    rounds: Seq<(Map<Seq<Seq<char>>, FsFact>, ChangeReport)>,
)
    ensures
        anchorage(fs, path).subset_of(
            state.anchored(fs, path).after_refreshes(rounds).acknowledged,
        ),
        state.anchored(fs, path).after_refreshes(rounds).acknowledges(fs, path),
{
    let anchored = state.anchored(fs, path);
    lemma_refreshes_monotonic(anchored, rounds);
    let normal = canonical(fs, path);
    assert(normal.is_prefix_of(normal));
    assert(anchor_candidates(fs, path)[0] == path);
    assert(located(fs, anchor_candidates(fs, path)[0]).contains(normal));
    assert(anchored.acknowledged.contains(normal));
    lemma_acknowledged_stays(anchored, fs, path, rounds);
}

/// So is a path that was acknowledged by force: its closure is acknowledged
/// after any sequence of refreshes, and the path is in scope.
pub proof fn lemma_forced_permanent(
    state: FilterState,
    fs: Map<Seq<Seq<char>>, FsFact>,
    path: Seq<Seq<char>>,
    rounds: Seq<(Map<Seq<Seq<char>>, FsFact>, ChangeReport)>,
)
    ensures
        expansion(fs, path).subset_of(state.forced(fs, path).after_refreshes(rounds).acknowledged),
        state.forced(fs, path).after_refreshes(rounds).acknowledges(fs, path),
{
    let forced = state.forced(fs, path);
    lemma_refreshes_monotonic(forced, rounds);
    let normal = canonical(fs, path);
    assert(normal.is_prefix_of(normal));
    assert(located(fs, path).contains(normal));
    assert(forced.acknowledged.contains(normal));
    lemma_acknowledged_stays(forced, fs, path, rounds);
}

/// In a valid state, every directory above an acknowledged path is
/// acknowledged.
pub proof fn lemma_ancestors_acknowledged(
    state: FilterState,
    path: Seq<Seq<char>>,
    dir: Seq<Seq<char>>,
)
    requires
        state.valid(),
        state.acknowledged.contains(path),
        dir.is_prefix_of(path),
    ensures
        state.acknowledged.contains(dir),
{
}

/// In a valid state, a path is in scope just when it is acknowledged
/// itself, as it is written or in its normal form.
pub proof fn lemma_in_scope_is_member(
    state: FilterState,
    fs: Map<Seq<Seq<char>>, FsFact>,
    path: Seq<Seq<char>>,
)
    requires
        state.valid(),
    ensures
        state.acknowledges(fs, path) <==> state.acknowledged.contains(canonical(fs, path))
            || state.acknowledged.contains(path),
{
    let normal = canonical(fs, path);
    assert(normal.is_prefix_of(normal));
    assert(path.is_prefix_of(path));
}

/// The state at the start of a session is valid.
pub proof fn lemma_initial_valid(repo_root: Seq<Seq<char>>, base_ref: Seq<char>)
    ensures
        FilterState::initial(repo_root, base_ref).valid(),
{
}

/// Anchoring a project keeps a state valid.
pub proof fn lemma_anchored_valid(
    state: FilterState,
    fs: Map<Seq<Seq<char>>, FsFact>,
    path: Seq<Seq<char>>,
)
    requires
        state.valid(),
    ensures
        state.anchored(fs, path).valid(),
{
    lemma_anchorage_closed(fs, path);
}

/// Acknowledging a path by force keeps a state valid.
pub proof fn lemma_forced_valid(
    state: FilterState,
    fs: Map<Seq<Seq<char>>, FsFact>,
    path: Seq<Seq<char>>,
)
    requires
        state.valid(),
    ensures
        state.forced(fs, path).valid(),
{
    lemma_expansion_closed(fs, path);
}

/// A refresh keeps a state valid.
pub proof fn lemma_refresh_valid(
    state: FilterState,
    fs: Map<Seq<Seq<char>>, FsFact>,
    report: ChangeReport,
)
    requires
        state.valid(),
    ensures
        state.after_refresh(fs, report).valid(),
{
    lemma_expanded_closed(fs, report_paths(state.repo_root, report));
}

/// So does any sequence of refreshes.
pub proof fn lemma_refreshes_valid(
    state: FilterState,
    rounds: Seq<(Map<Seq<Seq<char>>, FsFact>, ChangeReport)>,
)
    requires
        state.valid(),
    ensures
        state.after_refreshes(rounds).valid(),
    decreases rounds.len(),
{
    if rounds.len() > 0 {
        lemma_refreshes_valid(state, rounds.drop_last());
        lemma_refresh_valid(
            state.after_refreshes(rounds.drop_last()),
            rounds.last().0,
            rounds.last().1,
        );
    }
}

/// The closure of a path holds the metadata file beside the path and, for
/// an `init` file, that of its directory, each in its normal form.
pub proof fn lemma_closure_holds_meta_files(
    fs: Map<Seq<Seq<char>>, FsFact>,
    path: Seq<Seq<char>>,
)
    requires
        file_name_of(canonical(fs, path)) is Some,
    ensures
        expansion(fs, path).contains(canonical(fs, meta_sibling(canonical(fs, path)))),
        is_init_name(canonical(fs, path).last()) ==> expansion(fs, path).contains(
            canonical(fs, init_meta(canonical(fs, path))),
        ),
{
    let normal = canonical(fs, path);
    let files = meta_candidates(normal);
    let beside = canonical(fs, meta_sibling(normal));
    assert(files[0] == meta_sibling(normal));
    assert(beside.is_prefix_of(beside));
    assert(located(fs, files[0]).contains(beside));
    if is_init_name(normal.last()) {
        let above = canonical(fs, init_meta(normal));
        assert(files[1] == init_meta(normal));
        assert(above.is_prefix_of(above));
        assert(located(fs, files[1]).contains(above));
    }
}

/// Acknowledging a path by force brings its metadata files into scope.
pub proof fn lemma_forced_meta_files(
    state: FilterState,
    fs: Map<Seq<Seq<char>>, FsFact>,
    path: Seq<Seq<char>>,
)
    requires
        file_name_of(canonical(fs, path)) is Some,
    ensures
        state.forced(fs, path).acknowledges(fs, meta_sibling(canonical(fs, path))),
        is_init_name(canonical(fs, path).last()) ==> state.forced(fs, path).acknowledges(
            fs,
            init_meta(canonical(fs, path)),
        ),
{
    lemma_closure_holds_meta_files(fs, path);
    let normal = canonical(fs, path);
    let beside = canonical(fs, meta_sibling(normal));
    assert(beside.is_prefix_of(beside));
    if is_init_name(normal.last()) {
        let above = canonical(fs, init_meta(normal));
        assert(above.is_prefix_of(above));
    }
}

/// A refresh brings each path that was reported, and its metadata files,
/// into scope.
pub proof fn lemma_reported_meta_files(
    state: FilterState,
    fs: Map<Seq<Seq<char>>, FsFact>,
    paths: Seq<Seq<Seq<char>>>,
    i: int,
)
    requires
        0 <= i < paths.len(),
    ensures
        state.refreshed(fs, paths).acknowledges(fs, paths[i]),
        file_name_of(canonical(fs, paths[i])) is Some ==> state.refreshed(
            fs,
            paths,
        ).acknowledges(fs, meta_sibling(canonical(fs, paths[i]))),
        file_name_of(canonical(fs, paths[i])) is Some && is_init_name(
            canonical(fs, paths[i]).last(),
        ) ==> state.refreshed(fs, paths).acknowledges(fs, init_meta(canonical(fs, paths[i]))),
{
    let after = state.refreshed(fs, paths);
    let normal = canonical(fs, paths[i]);
    assert(normal.is_prefix_of(normal));
    assert(located(fs, paths[i]).contains(normal));
    assert(expansion(fs, paths[i]).contains(normal));
    assert(after.acknowledged.contains(normal));
    if file_name_of(normal) is Some {
        lemma_closure_holds_meta_files(fs, paths[i]);
        let beside = canonical(fs, meta_sibling(normal));
        assert(beside.is_prefix_of(beside));
        assert(after.acknowledged.contains(beside));
        if is_init_name(normal.last()) {
            let above = canonical(fs, init_meta(normal));
            assert(above.is_prefix_of(above));
            assert(after.acknowledged.contains(above));
        }
    }
}

} // verus!
