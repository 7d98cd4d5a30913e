//! File names: the extensions of source files and the names of the metadata
//! files that accompany them.

use crate::text::chars_of;
use vstd::prelude::*;

verus! {

/// `name` without `suffix`, where it ends with it.
pub open spec fn strip_suffix(name: Seq<char>, suffix: Seq<char>) -> Option<Seq<char>> {
    if suffix.is_suffix_of(name) {
        Some(name.take(name.len() - suffix.len()))
    } else {
        None
    }
}

/// `name` up to its last dot; all of it where it has none.
pub open spec fn strip_last_extension(name: Seq<char>) -> Seq<char> {
    match name.index_of_last('.') {
        Some(dot) => name.take(dot),
        None => name,
    }
}

/// The base name of a file: the name without its Lua extension, the
/// two-part extensions taking precedence over the one-part ones, or else
/// without its last extension of any kind.
pub open spec fn base_name(name: Seq<char>) -> Seq<char> {
    if let Some(base) = strip_suffix(name, ".server.luau"@) {
        base
    } else if let Some(base) = strip_suffix(name, ".server.lua"@) {
        base
    } else if let Some(base) = strip_suffix(name, ".client.luau"@) {
        base
    } else if let Some(base) = strip_suffix(name, ".client.lua"@) {
        base
    } else if let Some(base) = strip_suffix(name, ".luau"@) {
        base
    } else if let Some(base) = strip_suffix(name, ".lua"@) {
        base
    } else {
        strip_last_extension(name)
    }
}

/// The name of the metadata file that belongs to the file called `name`.
pub open spec fn meta_name(name: Seq<char>) -> Seq<char> {
    base_name(name) + ".meta.json"@
}

/// Whether `name` is that of an `init` file: `init.` and then anything.
pub open spec fn is_init_name(name: Seq<char>) -> bool {
    "init."@.is_prefix_of(name)
}

/// Whether `chars` ends with `suffix`.
pub fn ends_with(chars: &Vec<char>, suffix: &str) -> (b: bool)
    ensures
        b == suffix@.is_suffix_of(chars@),
{
    let tail = chars_of(suffix);
    let n = chars.len();
    let m = tail.len();
    if m > n {
        return false;
    }
    let mut j: usize = 0;
    while j < m
        invariant
            m <= n,
            n == chars@.len(),
            m == tail@.len(),
            tail@ == suffix@,
            j <= m,
            forall|k: int| 0 <= k < j ==> chars@[n - m + k] == tail@[k],
        decreases m - j,
    {
        if chars[n - m + j] != tail[j] {
            assert(chars@.subrange(n - m, n as int)[j as int] != tail@[j as int]);
            return false;
        }
        j += 1;
    }
    assert(tail@ =~= chars@.subrange(n - m, n as int));
    true
}

/// Whether `chars` starts with `prefix`.
pub fn starts_with(chars: &Vec<char>, prefix: &str) -> (b: bool)
    ensures
        b == prefix@.is_prefix_of(chars@),
{
    let head = chars_of(prefix);
    let n = chars.len();
    let m = head.len();
    if m > n {
        return false;
    }
    let mut j: usize = 0;
    while j < m
        invariant
            m <= n,
            n == chars@.len(),
            m == head@.len(),
            head@ == prefix@,
            j <= m,
            forall|k: int| 0 <= k < j ==> chars@[k] == head@[k],
        decreases m - j,
    {
        if chars[j] != head[j] {
            assert(chars@.subrange(0, m as int)[j as int] != head@[j as int]);
            return false;
        }
        j += 1;
    }
    assert(head@ =~= chars@.subrange(0, m as int));
    true
}

/// The length of `chars` without `suffix`, where it ends with it.
fn cut_suffix(chars: &Vec<char>, suffix: &str) -> (cut: Option<usize>)
    ensures
        match cut {
            Some(k) => k <= chars@.len() && strip_suffix(chars@, suffix@) == Some(
                chars@.take(k as int),
            ),
            None => strip_suffix(chars@, suffix@) is None,
        },
{
    if ends_with(chars, suffix) {
        let m = suffix.unicode_len();
        Some(chars.len() - m)
    } else {
        None
    }
}

/// The length of `chars` up to its last dot, or all of it.
fn cut_last_extension(chars: &Vec<char>) -> (k: usize)
    ensures
        k <= chars@.len(),
        chars@.take(k as int) == strip_last_extension(chars@),
{
    let mut i: usize = chars.len();
    while i > 0
        invariant
            i <= chars@.len(),
            forall|j: int| i <= j < chars@.len() ==> chars@[j] != '.',
        decreases i,
    {
        if chars[i - 1] == '.' {
            proof {
                chars@.index_of_last_ensures('.');
            }
            return i - 1;
        }
        i -= 1;
    }
    proof {
        chars@.index_of_last_ensures('.');
        assert(chars@.take(chars@.len() as int) == chars@);
    }
    chars.len()
}

/// Strips the Lua extension from a file name to get its base name; a name
/// without one loses its last extension, if it has any.
pub fn strip_lua_extension(file_name: &str) -> (base: &str)
    ensures
        base@ == base_name(file_name@),
{
    let chars = chars_of(file_name);
    let cut = if let Some(k) = cut_suffix(&chars, ".server.luau") {
        k
    } else if let Some(k) = cut_suffix(&chars, ".server.lua") {
        k
    } else if let Some(k) = cut_suffix(&chars, ".client.luau") {
        k
    } else if let Some(k) = cut_suffix(&chars, ".client.lua") {
        k
    } else if let Some(k) = cut_suffix(&chars, ".luau") {
        k
    } else if let Some(k) = cut_suffix(&chars, ".lua") {
        k
    } else {
        cut_last_extension(&chars)
    };
    file_name.substring_char(0, cut)
}

/// The name of the metadata file that belongs to the file called `file_name`.
pub fn meta_file_name(file_name: &str) -> (name: String)
    ensures
        name@ == meta_name(file_name@),
{
    let mut name = String::from_str(strip_lua_extension(file_name));
    name.append(".meta.json");
    name
}

/// Whether `file_name` is that of an `init` file.
pub fn is_init_file(file_name: &str) -> (b: bool)
    ensures
        b == is_init_name(file_name@),
{
    let chars = chars_of(file_name);
    starts_with(&chars, "init.")
}

} // verus!
