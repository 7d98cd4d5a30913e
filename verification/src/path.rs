//! Absolute paths as sequences of component names below the root.

use crate::text::{chars_of, lemma_split_append, split, split_ranges, string_of};
use vstd::prelude::*;

verus! {

/// Whether a piece of a path's text names a component: the empty pieces and
/// the current-directory marks do not.
pub open spec fn names_component() -> spec_fn(Seq<char>) -> bool {
    |piece: Seq<char>| piece.len() > 0 && piece != "."@
}

/// A component of a path: a name that is not empty, holds no separator and
/// is not the current-directory mark.
pub open spec fn is_component(part: Seq<char>) -> bool {
    part.len() > 0 && !part.contains('/') && part != "."@
}

/// A path whose every part is a component.
pub open spec fn valid_path(path: Seq<Seq<char>>) -> bool {
    forall|i: int| 0 <= i < path.len() ==> is_component(#[trigger] path[i])
}

/// The components that `text` names: its pieces between separators, without
/// the empty ones and the current-directory marks.
pub open spec fn components(text: Seq<char>) -> Seq<Seq<char>> {
    split(text, '/').filter(names_component())
}

/// `base` with `text` adjoined. Text that begins at the root replaces `base`.
pub open spec fn joined(base: Seq<Seq<char>>, text: Seq<char>) -> Seq<Seq<char>> {
    if text.len() > 0 && text[0] == '/' {
        components(text)
    } else {
        base + components(text)
    }
}

/// The directory that holds `path`; the root has none.
pub open spec fn parent_of(path: Seq<Seq<char>>) -> Option<Seq<Seq<char>>> {
    if path.len() > 0 {
        Some(path.drop_last())
    } else {
        None
    }
}

/// The last component of `path`, unless the path is the root or ends in the
/// parent-directory mark.
pub open spec fn file_name_of(path: Seq<Seq<char>>) -> Option<Seq<char>> {
    if path.len() > 0 && path.last() != ".."@ {
        Some(path.last())
    } else {
        None
    }
}

/// The components of `path`, each with a separator before it.
pub open spec fn flat(path: Seq<Seq<char>>) -> Seq<char>
    decreases path.len(),
{
    if path.len() == 0 {
        Seq::empty()
    } else {
        flat(path.drop_last()) + seq!['/'] + path.last()
    }
}

/// The text that names `path`: a separator before each component, and a
/// lone separator for the root.
pub open spec fn text_of(path: Seq<Seq<char>>) -> Seq<char> {
    if path.len() == 0 {
        seq!['/']
    } else {
        flat(path)
    }
}

/// The contents of a list of strings.
pub open spec fn names(parts: Seq<String>) -> Seq<Seq<char>> {
    parts.map_values(|part: String| part@)
}

/// A split has at least one piece, and no piece holds the separator.
pub proof fn lemma_split_pieces(text: Seq<char>, sep: char)
    ensures
        split(text, sep).len() > 0,
        forall|k: int|
            0 <= k < split(text, sep).len() ==> !(#[trigger] split(text, sep)[k]).contains(sep),
    decreases text.len(),
{
    if text.len() > 0 {
        lemma_split_pieces(text.drop_last(), sep);
    }
}

/// What `components` yields is a valid path.
pub proof fn lemma_components_valid(text: Seq<char>)
    ensures
        valid_path(components(text)),
{
    let pieces = split(text, '/');
    let kept = pieces.filter(names_component());
    lemma_split_pieces(text, '/');
    assert forall|i: int| 0 <= i < kept.len() implies is_component(#[trigger] kept[i]) by {
        pieces.lemma_filter_pred(names_component(), i);
        pieces.lemma_filter_contains_rev(names_component(), kept[i]);
    }
}

/// A lone empty piece names no component.
proof fn lemma_empty_piece_dropped()
    ensures
        seq![Seq::<char>::empty()].filter(names_component()) == Seq::<Seq<char>>::empty(),
{
    let none = Seq::<Seq<char>>::empty();
    assert(none.filter(names_component()) =~= none) by {
        reveal(Seq::filter);
    }
    none.lemma_filter_push(Seq::<char>::empty(), names_component());
    assert(none.push(Seq::<char>::empty()) =~= seq![Seq::<char>::empty()]);
}

/// Pieces that all name components pass the filter of `components` whole.
proof fn lemma_all_kept(pieces: Seq<Seq<char>>)
    requires
        forall|i: int| 0 <= i < pieces.len() ==> names_component()(#[trigger] pieces[i]),
    ensures
        pieces.filter(names_component()) == pieces,
    decreases pieces.len(),
{
    if pieces.len() == 0 {
        reveal(Seq::filter);
    } else {
        let head = pieces.drop_last();
        assert forall|i: int| 0 <= i < head.len() implies names_component()(
            #[trigger] head[i],
        ) by {
            assert(head[i] == pieces[i]);
        }
        lemma_all_kept(head);
        head.lemma_filter_push(pieces.last(), names_component());
        assert(names_component()(pieces[pieces.len() - 1]));
        assert(head.push(pieces.last()) =~= pieces);
    }
}

/// A path of components passes the filter of `components` whole, after an
/// empty piece that does not.
proof fn lemma_components_kept(path: Seq<Seq<char>>)
    requires
        valid_path(path),
    ensures
        (seq![Seq::<char>::empty()] + path).filter(names_component()) == path,
{
    let first = seq![Seq::<char>::empty()];
    lemma_empty_piece_dropped();
    assert forall|i: int| 0 <= i < path.len() implies names_component()(#[trigger] path[i]) by {
        assert(is_component(path[i]));
    }
    lemma_all_kept(path);
    Seq::filter_distributes_over_add(first, path, names_component());
    assert(Seq::<Seq<char>>::empty() + path =~= path);
}

/// The pieces of the flat text of a path are an empty piece and then its
/// components.
proof fn lemma_split_flat(path: Seq<Seq<char>>)
    requires
        valid_path(path),
    ensures
        split(flat(path), '/') == seq![Seq::<char>::empty()] + path,
    decreases path.len(),
{
    let first = seq![Seq::<char>::empty()];
    if path.len() == 0 {
        assert(first + path =~= first);
    } else {
        lemma_split_flat(path.drop_last());
        assert(is_component(path[path.len() - 1]));
        lemma_split_append(flat(path.drop_last()), '/', path.last());
        assert((first + path.drop_last()).push(path.last()) =~= first + path);
    }
}

/// The text that names a path of components names that path.
pub proof fn lemma_text_round_trip(path: Seq<Seq<char>>)
    requires
        valid_path(path),
    ensures
        components(text_of(path)) == path,
{
    let none = Seq::<char>::empty();
    if path.len() == 0 {
        lemma_split_append(none, '/', none);
        assert(none + seq!['/'] + none =~= seq!['/']);
        let pieces = split(none, '/').push(none);
        assert(pieces =~= seq![none].push(none));
        lemma_empty_piece_dropped();
        seq![none].lemma_filter_push(none, names_component());
        assert(path =~= Seq::<Seq<char>>::empty());
    } else {
        lemma_split_flat(path);
        lemma_components_kept(path);
    }
}

/// The components that `chars` names, as strings.
fn parts_of(chars: &Vec<char>) -> (parts: Vec<String>)
    ensures
        names(parts@) == components(chars@),
{
    let ghost pieces = split(chars@, '/');
    let ranges = split_ranges(chars, '/');
    let mut parts: Vec<String> = Vec::new();
    let mut k: usize = 0;
    proof {
        reveal_strlit(".");
        reveal(Seq::filter);
        assert(pieces.take(0).filter(names_component()) == Seq::<Seq<char>>::empty());
    }
    while k < ranges.len()
        invariant
            k <= ranges@.len(),
            ranges@.len() == pieces.len(),
            "."@ == seq!['.'],
            forall|j: int|
                #![trigger ranges@[j]]
                0 <= j < ranges@.len() ==> {
                    &&& ranges@[j].0 <= ranges@[j].1 <= chars@.len()
                    &&& chars@.subrange(ranges@[j].0 as int, ranges@[j].1 as int) == pieces[j]
                },
            names(parts@) == pieces.take(k as int).filter(names_component()),
        decreases ranges@.len() - k,
    {
        let (from, to) = ranges[k];
        let ghost piece = pieces[k as int];
        proof {
            assert(pieces.take(k as int + 1) == pieces.take(k as int).push(piece));
            pieces.take(k as int).lemma_filter_push(piece, names_component());
        }
        let dot = to - from == 1 && chars[from] == '.';
        assert(dot == (piece == "."@)) by {
            if piece.len() == 1 {
                assert(piece[0] == chars@[from as int]);
                assert(dot ==> piece =~= seq!['.']);
            }
        }
        if to > from && !dot {
            let part = string_of(chars, from, to);
            proof {
                parts@.lemma_push_map_commute(|part: String| part@, part);
            }
            parts.push(part);
        }
        k += 1;
    }
    assert(pieces.take(k as int) == pieces);
    parts
}

/// An absolute path: the names of its components, from the root down. The
/// root itself has none.
#[derive(Debug, PartialEq, Eq)]
pub struct FsPath {
    parts: Vec<String>,
}

impl View for FsPath {
    type V = Seq<Seq<char>>;

    closed spec fn view(&self) -> Seq<Seq<char>> {
        names(self.parts@)
    }
}

impl Clone for FsPath {
    fn clone(&self) -> (copy: Self)
        ensures
            copy@ == self@,
    {
        let copy = self.prefix(self.parts.len());
        assert(self@.take(self@.len() as int) == self@);
        copy
    }
}

impl FsPath {
    #[verifier::type_invariant]
    spec fn inv(self) -> bool {
        valid_path(self@)
    }

    /// The root.
    pub fn root() -> (path: FsPath)
        ensures
            path@ == Seq::<Seq<char>>::empty(),
    {
        FsPath { parts: Vec::new() }
    }

    /// The path that `text` names, read from the root.
    pub fn parse(text: &str) -> (path: FsPath)
        ensures
            path@ == components(text@),
    {
        let chars = chars_of(text);
        let parts = parts_of(&chars);
        proof {
            lemma_components_valid(chars@);
        }
        FsPath { parts }
    }

    /// This path with `text` adjoined; text that begins at the root
    /// replaces this path.
    pub fn join(&self, text: &str) -> (path: FsPath)
        ensures
            path@ == joined(self@, text@),
    {
        let chars = chars_of(text);
        let mut more = parts_of(&chars);
        proof {
            use_type_invariant(self);
            lemma_components_valid(chars@);
        }
        if chars.len() > 0 && chars[0] == '/' {
            FsPath { parts: more }
        } else {
            let FsPath { mut parts } = self.clone();
            assert(names(parts@ + more@) == names(parts@) + names(more@));
            parts.append(&mut more);
            FsPath { parts }
        }
    }

    /// The text that names this path: a separator before each component,
    /// and a lone separator for the root. It names this path and no other.
    pub fn to_text(&self) -> (text: String)
        ensures
            text@ == text_of(self@),
            components(text@) == self@,
    {
        proof {
            use_type_invariant(self);
            lemma_text_round_trip(self@);
        }
        let mut text = String::new();
        let n = self.parts.len();
        if n == 0 {
            text.push('/');
            assert(text@ =~= seq!['/']);
            return text;
        }
        let mut i: usize = 0;
        assert(self@.take(0) =~= Seq::<Seq<char>>::empty());
        while i < n
            invariant
                i <= n,
                n == self@.len(),
                n == self.parts@.len(),
                text@ == flat(self@.take(i as int)),
            decreases n - i,
        {
            proof {
                let next = self@.take(i as int + 1);
                assert(next.drop_last() =~= self@.take(i as int));
                assert(next.last() == self.parts@[i as int]@);
            }
            text.push('/');
            text.append(self.parts[i].as_str());
            assert(text@ =~= flat(self@.take(i as int)) + seq!['/'] + self.parts@[i as int]@);
            i += 1;
        }
        assert(self@.take(n as int) =~= self@);
        text
    }

    /// The number of components.
    pub fn len(&self) -> (count: usize)
        ensures
            count == self@.len(),
    {
        self.parts.len()
    }

    /// The first `count` components of this path: the path itself, or one of
    /// the directories above it.
    pub(crate) fn prefix(&self, count: usize) -> (path: FsPath)
        requires
            count <= self@.len(),
        ensures
            path@ == self@.take(count as int),
    {
        proof {
            use_type_invariant(self);
        }
        let mut parts: Vec<String> = Vec::new();
        let mut i: usize = 0;
        while i < count
            invariant
                i <= count <= self.parts@.len(),
                names(parts@) == self@.take(i as int),
            decreases count - i,
        {
            let part = self.parts[i].clone();
            proof {
                parts@.lemma_push_map_commute(|part: String| part@, part);
                assert(self@.take(i as int + 1) == self@.take(i as int).push(self@[i as int]));
            }
            parts.push(part);
            i += 1;
        }
        FsPath { parts }
    }

    /// The directory that holds this path; the root has none.
    pub fn parent(&self) -> (dir: Option<FsPath>)
        ensures
            match dir {
                Some(dir) => parent_of(self@) == Some(dir@),
                None => parent_of(self@) is None,
            },
    {
        let n = self.parts.len();
        if n > 0 {
            Some(self.prefix(n - 1))
        } else {
            None
        }
    }

    /// The last component, unless this path is the root or ends in the
    /// parent-directory mark.
    pub fn file_name(&self) -> (name: Option<&str>)
        ensures
            match name {
                Some(name) => file_name_of(self@) == Some(name@) && is_component(name@),
                None => file_name_of(self@) is None,
            },
    {
        proof {
            use_type_invariant(self);
        }
        let n = self.parts.len();
        if n == 0 {
            return None;
        }
        let last = self.parts[n - 1].as_str();
        let chars = chars_of(last);
        proof {
            reveal_strlit("..");
        }
        if chars.len() == 2 && chars[0] == '.' && chars[1] == '.' {
            assert(last@ =~= ".."@);
            None
        } else {
            Some(last)
        }
    }

    /// Whether the two paths have the same components.
    pub fn same(&self, other: &FsPath) -> (b: bool)
        ensures
            b == (self@ == other@),
    {
        let b = self.parts.len() == other.parts.len() && self.starts_with(other);
        assert(b ==> self@ =~= other@);
        assert(self@ == other@ ==> self@.subrange(0, self@.len() as int) =~= other@);
        b
    }

    /// Whether `base` is this path or a directory above it.
    pub fn starts_with(&self, base: &FsPath) -> (b: bool)
        ensures
            b == base@.is_prefix_of(self@),
    {
        let n = base.parts.len();
        if n > self.parts.len() {
            return false;
        }
        let mut i: usize = 0;
        while i < n
            invariant
                i <= n,
                n == base@.len(),
                n <= self@.len(),
                forall|j: int| 0 <= j < i ==> self@[j] == base@[j],
            decreases n - i,
        {
            if self.parts[i] != base.parts[i] {
                assert(self@.subrange(0, n as int)[i as int] != base@[i as int]);
                return false;
            }
            i += 1;
        }
        assert(base@ =~= self@.subrange(0, n as int));
        true
    }

    /// The path beside this one whose last component is `name`.
    pub(crate) fn sibling(&self, name: String) -> (path: FsPath)
        requires
            self@.len() > 0,
            is_component(name@),
        ensures
            path@ == self@.drop_last().push(name@),
    {
        let dir = self.prefix(self.parts.len() - 1);
        proof {
            use_type_invariant(&dir);
        }
        let FsPath { mut parts } = dir;
        proof {
            parts@.lemma_push_map_commute(|part: String| part@, name);
        }
        parts.push(name);
        FsPath { parts }
    }

    /// The path below this one whose last component is `name`.
    pub(crate) fn child(&self, name: String) -> (path: FsPath)
        requires
            is_component(name@),
        ensures
            path@ == self@.push(name@),
    {
        let FsPath { mut parts } = self.clone();
        proof {
            use_type_invariant(self);
            parts@.lemma_push_map_commute(|part: String| part@, name);
        }
        parts.push(name);
        FsPath { parts }
    }
}

} // verus!
