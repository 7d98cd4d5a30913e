//! What acknowledging a path brings with it: the path in its normal form,
//! the directories above it, and the metadata files beside it.

use crate::names::{base_name, is_init_name, meta_name};
use crate::path::{file_name_of, is_component, parent_of};
use crate::pathset::{ancestor_closed, ancestry};
use crate::snapshot::{canonical, is_directory, FsFact};
use vstd::prelude::*;

verus! {

/// The metadata file beside `path`: in the same directory, named after the
/// base name of `path`.
pub open spec fn meta_sibling(path: Seq<Seq<char>>) -> Seq<Seq<char>> {
    path.drop_last().push(meta_name(path.last()))
}

/// The metadata file of the directory that holds `path`.
pub open spec fn init_meta(path: Seq<Seq<char>>) -> Seq<Seq<char>> {
    path.drop_last().push("init.meta.json"@)
}

/// The metadata files that belong to `path`: the one beside it and, for an
/// `init` file, that of its directory. A path without a file name has none.
pub open spec fn meta_candidates(path: Seq<Seq<char>>) -> Seq<Seq<Seq<char>>> {
    match file_name_of(path) {
        Some(name) => if is_init_name(name) {
            seq![meta_sibling(path), init_meta(path)]
        } else {
            seq![meta_sibling(path)]
        },
        None => Seq::empty(),
    }
}

/// What acknowledging the single path `path` adds: its normal form and
/// every directory above that.
pub open spec fn located(fs: Map<Seq<Seq<char>>, FsFact>, path: Seq<Seq<char>>) -> Set<
    Seq<Seq<char>>,
> {
    ancestry(canonical(fs, path))
}

/// What acknowledging each of `paths` singly adds.
pub open spec fn located_all(fs: Map<Seq<Seq<char>>, FsFact>, paths: Seq<Seq<Seq<char>>>) -> Set<
    Seq<Seq<char>>,
> {
    Set::new(
        |p: Seq<Seq<char>>|
            exists|i: int| 0 <= i < paths.len() && #[trigger] located(fs, paths[i]).contains(p),
    )
}

/// The normal forms of `paths`, and nothing else.
pub open spec fn canonical_all(
    fs: Map<Seq<Seq<char>>, FsFact>,
    paths: Seq<Seq<Seq<char>>>,
) -> Set<Seq<Seq<char>>> {
    Set::new(
        |p: Seq<Seq<char>>|
            exists|i: int| 0 <= i < paths.len() && p == canonical(fs, #[trigger] paths[i]),
    )
}

/// The closure of `path`: its normal form, the directories above it and the
/// metadata files that belong to it, these taken in their normal form too.
pub open spec fn expansion(fs: Map<Seq<Seq<char>>, FsFact>, path: Seq<Seq<char>>) -> Set<
    Seq<Seq<char>>,
> {
    located(fs, path).union(located_all(fs, meta_candidates(canonical(fs, path))))
}

/// The closures of all of `paths` together.
pub open spec fn expanded(fs: Map<Seq<Seq<char>>, FsFact>, paths: Seq<Seq<Seq<char>>>) -> Set<
    Seq<Seq<char>>,
> {
    Set::new(
        |p: Seq<Seq<char>>|
            exists|i: int| 0 <= i < paths.len() && #[trigger] expansion(fs, paths[i]).contains(p),
    )
}

/// The project files that a project directory is looked up by.
pub open spec fn project_files(dir: Seq<Seq<char>>) -> Seq<Seq<Seq<char>>> {
    seq![dir.push("default.project.json"@), dir.push("default.project.jsonc"@)]
}

/// The paths that anchoring the project at `path` looks at: the path, for
/// a directory the project files in it, and the directory that holds the
/// path.
pub open spec fn anchor_candidates(fs: Map<Seq<Seq<char>>, FsFact>, path: Seq<Seq<char>>) -> Seq<
    Seq<Seq<char>>,
> {
    let inside = if is_directory(fs, path) {
        project_files(path)
    } else {
        Seq::empty()
    };
    let above = match parent_of(path) {
        Some(dir) => seq![dir],
        None => Seq::empty(),
    };
    seq![path] + inside + above
}

/// What anchoring the project at `path` adds: each of the paths that it
/// looks at, in its normal form and with every directory above it.
pub open spec fn anchorage(fs: Map<Seq<Seq<char>>, FsFact>, path: Seq<Seq<char>>) -> Set<
    Seq<Seq<char>>,
> {
    located_all(fs, anchor_candidates(fs, path))
}

/// One more path has one more normal form.
pub proof fn lemma_canonical_push(
    fs: Map<Seq<Seq<char>>, FsFact>,
    paths: Seq<Seq<Seq<char>>>,
    path: Seq<Seq<char>>,
)
    ensures
        canonical_all(fs, paths.push(path)) == canonical_all(fs, paths).insert(
            canonical(fs, path),
        ),
{
    let more = paths.push(path);
    assert forall|p: Seq<Seq<char>>| canonical_all(fs, more).contains(p) implies canonical_all(
        fs,
        paths,
    ).insert(canonical(fs, path)).contains(p) by {
        let i = choose|i: int| 0 <= i < more.len() && p == canonical(fs, #[trigger] more[i]);
        if i < paths.len() {
            assert(p == canonical(fs, paths[i]));
        }
    }
    assert forall|p: Seq<Seq<char>>|
        canonical_all(fs, paths).insert(canonical(fs, path)).contains(p) implies canonical_all(
        fs,
        more,
    ).contains(p) by {
        if p == canonical(fs, path) {
            assert(p == canonical(fs, more[paths.len() as int]));
        } else {
            let i = choose|i: int| 0 <= i < paths.len() && p == canonical(fs, #[trigger] paths[i]);
            assert(p == canonical(fs, more[i]));
        }
    }
    assert(canonical_all(fs, more) =~= canonical_all(fs, paths).insert(canonical(fs, path)));
}

/// The normal forms of paths are among what acknowledging them singly adds.
pub proof fn lemma_canonical_is_located(
    fs: Map<Seq<Seq<char>>, FsFact>,
    paths: Seq<Seq<Seq<char>>>,
)
    ensures
        canonical_all(fs, paths).subset_of(located_all(fs, paths)),
{
    assert forall|p: Seq<Seq<char>>| canonical_all(fs, paths).contains(p) implies located_all(
        fs,
        paths,
    ).contains(p) by {
        let i = choose|i: int| 0 <= i < paths.len() && p == canonical(fs, #[trigger] paths[i]);
        assert(p.is_prefix_of(p));
        assert(located(fs, paths[i]).contains(p));
    }
}

/// Adding one more path adds what that path adds.
pub proof fn lemma_located_push(
    fs: Map<Seq<Seq<char>>, FsFact>,
    paths: Seq<Seq<Seq<char>>>,
    path: Seq<Seq<char>>,
)
    ensures
        located_all(fs, paths.push(path)) == located_all(fs, paths).union(located(fs, path)),
{
    let more = paths.push(path);
    assert forall|p: Seq<Seq<char>>| located_all(fs, more).contains(p) implies located_all(
        fs,
        paths,
    ).union(located(fs, path)).contains(p) by {
        let i = choose|i: int| 0 <= i < more.len() && #[trigger] located(fs, more[i]).contains(p);
        if i < paths.len() {
            assert(located(fs, paths[i]).contains(p));
        }
    }
    assert forall|p: Seq<Seq<char>>|
        located_all(fs, paths).union(located(fs, path)).contains(p) implies located_all(
        fs,
        more,
    ).contains(p) by {
        if located(fs, path).contains(p) {
            assert(located(fs, more[paths.len() as int]).contains(p));
        } else {
            let i = choose|i: int|
                0 <= i < paths.len() && #[trigger] located(fs, paths[i]).contains(p);
            assert(located(fs, more[i]).contains(p));
        }
    }
    assert(located_all(fs, more) =~= located_all(fs, paths).union(located(fs, path)));
}

/// Reporting one more path adds the closure of that path.
pub proof fn lemma_expanded_push(
    fs: Map<Seq<Seq<char>>, FsFact>,
    paths: Seq<Seq<Seq<char>>>,
    path: Seq<Seq<char>>,
)
    ensures
        expanded(fs, paths.push(path)) == expanded(fs, paths).union(expansion(fs, path)),
{
    let more = paths.push(path);
    assert forall|p: Seq<Seq<char>>| expanded(fs, more).contains(p) implies expanded(
        fs,
        paths,
    ).union(expansion(fs, path)).contains(p) by {
        let i = choose|i: int| 0 <= i < more.len() && #[trigger] expansion(fs, more[i]).contains(p);
        if i < paths.len() {
            assert(expansion(fs, paths[i]).contains(p));
        }
    }
    assert forall|p: Seq<Seq<char>>|
        expanded(fs, paths).union(expansion(fs, path)).contains(p) implies expanded(
        fs,
        more,
    ).contains(p) by {
        if expansion(fs, path).contains(p) {
            assert(expansion(fs, more[paths.len() as int]).contains(p));
        } else {
            let i = choose|i: int|
                0 <= i < paths.len() && #[trigger] expansion(fs, paths[i]).contains(p);
            assert(expansion(fs, more[i]).contains(p));
        }
    }
    assert(expanded(fs, more) =~= expanded(fs, paths).union(expansion(fs, path)));
}

/// What a single path adds holds, with each path, the directories above it.
pub proof fn lemma_located_closed(fs: Map<Seq<Seq<char>>, FsFact>, path: Seq<Seq<char>>)
    ensures
        ancestor_closed(located(fs, path)),
{
}

/// So does what several paths add.
pub proof fn lemma_located_all_closed(
    fs: Map<Seq<Seq<char>>, FsFact>,
    paths: Seq<Seq<Seq<char>>>,
)
    ensures
        ancestor_closed(located_all(fs, paths)),
{
    let all = located_all(fs, paths);
    assert forall|p: Seq<Seq<char>>, q: Seq<Seq<char>>|
        all.contains(p) && #[trigger] q.is_prefix_of(p) implies all.contains(q) by {
        let i = choose|i: int| 0 <= i < paths.len() && #[trigger] located(fs, paths[i]).contains(p);
        assert(located(fs, paths[i]).contains(q));
    }
}

/// The closure of a path holds, with each path, the directories above it.
pub proof fn lemma_expansion_closed(fs: Map<Seq<Seq<char>>, FsFact>, path: Seq<Seq<char>>)
    ensures
        ancestor_closed(expansion(fs, path)),
{
    lemma_located_closed(fs, path);
    lemma_located_all_closed(fs, meta_candidates(canonical(fs, path)));
}

/// So do the closures of several paths together.
pub proof fn lemma_expanded_closed(fs: Map<Seq<Seq<char>>, FsFact>, paths: Seq<Seq<Seq<char>>>)
    ensures
        ancestor_closed(expanded(fs, paths)),
{
    let all = expanded(fs, paths);
    assert forall|p: Seq<Seq<char>>, q: Seq<Seq<char>>|
        all.contains(p) && #[trigger] q.is_prefix_of(p) implies all.contains(q) by {
        let i = choose|i: int|
            0 <= i < paths.len() && #[trigger] expansion(fs, paths[i]).contains(p);
        lemma_expansion_closed(fs, paths[i]);
        assert(expansion(fs, paths[i]).contains(q));
    }
}

/// So does what anchoring a project adds.
pub proof fn lemma_anchorage_closed(fs: Map<Seq<Seq<char>>, FsFact>, path: Seq<Seq<char>>)
    ensures
        ancestor_closed(anchorage(fs, path)),
{
    lemma_located_all_closed(fs, anchor_candidates(fs, path));
}

/// The names of the project files are components.
pub proof fn lemma_project_file_names()
    ensures
        is_component("default.project.json"@),
        is_component("default.project.jsonc"@),
{
    reveal_strlit(".");
    assert(is_component("default.project.json"@)) by {
        reveal_strlit("default.project.json");
        let name = "default.project.json"@;
        assert forall|i: int| 0 <= i < name.len() implies name[i] != '/' by {}
    }
    assert(is_component("default.project.jsonc"@)) by {
        reveal_strlit("default.project.jsonc");
        let name = "default.project.jsonc"@;
        assert(name.len() == 21);
        assert forall|i: int| 0 <= i < 21 implies name[i] != '/' by {}
    }
}

/// The base name of a file is the start of its name.
pub proof fn lemma_base_name_is_prefix(name: Seq<char>)
    ensures
        base_name(name).is_prefix_of(name),
{
    name.index_of_last_ensures('.');
}

/// The name of a metadata file is a component where the name of the file
/// that it belongs to holds no separator.
pub proof fn lemma_meta_name_is_component(name: Seq<char>)
    requires
        !name.contains('/'),
    ensures
        is_component(meta_name(name)),
        is_component("init.meta.json"@),
{
    reveal_strlit(".");
    assert(is_component("init.meta.json"@)) by {
        reveal_strlit("init.meta.json");
        let init = "init.meta.json"@;
        assert(init.len() == 14);
        assert forall|i: int| 0 <= i < 14 implies init[i] != '/' by {}
    }
    assert(is_component(meta_name(name))) by {
        reveal_strlit(".meta.json");
        lemma_base_name_is_prefix(name);
        let base = base_name(name);
        let tail = ".meta.json"@;
        let meta = meta_name(name);
        assert(tail.len() == 10);
        assert(meta.len() == base.len() + 10);
        assert forall|j: int| 0 <= j < 10 implies tail[j] != '/' by {}
        assert forall|i: int| 0 <= i < meta.len() implies meta[i] != '/' by {
            if i < base.len() {
                assert(meta[i] == base[i]);
                assert(base[i] == name[i]);
            } else {
                assert(meta[i] == tail[i - base.len()]);
            }
        }
        assert(meta != "."@);
    }
}

} // verus!
