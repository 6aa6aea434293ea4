//! Paths, as texts.

use camino::Utf8Path;
use vstd::prelude::*;
use crate::text::{copy_of, texts};

verus! {

/// The components of a path.
pub uninterp spec fn path_components(path: Seq<char>) -> Seq<Seq<char>>;

/// Whether two paths, which may be spelled in different ways, lead to the same place.
pub open spec fn same_place(a: Seq<char>, b: Seq<char>) -> bool {
    path_components(a) == path_components(b)
}

/// The equality of `Utf8Path`: two paths are equal where their components are.
#[verifier::external_body]
pub(crate) fn same_path(a: &str, b: &str) -> (r: bool)
    ensures
        r == (path_components(a@) == path_components(b@)),
{
    Utf8Path::new(a) == Utf8Path::new(b)
}

/// Whether a path is ordered before another.
pub uninterp spec fn path_less(a: Seq<char>, b: Seq<char>) -> bool;

/// The order of `Utf8Path`: it depends on the two paths alone, and orders their components one by
/// one. So it is total: what comes after the later path comes after the earlier one too, and of two
/// paths with different components one is before the other.
#[verifier::external_body]
pub(crate) fn is_before(a: &str, b: &str) -> (r: bool)
    ensures
        r == path_less(a@, b@),
        r ==> forall|c: Seq<char>| #[trigger] path_less(b@, c) ==> path_less(a@, c),
        !r ==> path_components(a@) == path_components(b@) || path_less(b@, a@),
{
    Utf8Path::new(a) < Utf8Path::new(b)
}

/// What is left of a path behind a base, or `None` where it does not lie below the base.
pub uninterp spec fn path_below(path: Seq<char>, base: Seq<char>) -> Option<Seq<char>>;

/// `Utf8Path::strip_prefix`: what is left depends on the two paths alone, and, joined onto the base,
/// leads to the same place as the path.
#[verifier::external_body]
pub(crate) fn strip_prefix(path: &str, base: &str) -> (r: Option<String>)
    ensures
        match r {
            Some(rel) => path_below(path@, base@) == Some(rel@) && path_components(
                path_joined(base@, rel@),
            ) == path_components(path@),
            None => path_below(path@, base@) is None,
        },
{
    Utf8Path::new(path).strip_prefix(base).ok().map(|p| p.as_str().to_string())
}

/// A path from a base on.
pub uninterp spec fn path_joined(base: Seq<char>, path: Seq<char>) -> Seq<char>;

/// `Utf8Path::join`: the path depends on the two parts alone.
#[verifier::external_body]
pub(crate) fn join(base: &str, path: &str) -> (r: String)
    ensures
        r@ == path_joined(base@, path@),
{
    Utf8Path::new(base).join(path).into_string()
}

/// The directory that holds a path, or `None` where there is none.
pub uninterp spec fn path_parent(path: Seq<char>) -> Option<Seq<char>>;

/// `Utf8Path::parent`: the directory depends on the path alone, and is the path without its last
/// component, so that it is shorter.
#[verifier::external_body]
pub(crate) fn parent(path: &str) -> (r: Option<String>)
    ensures
        match r {
            Some(dir) => path_parent(path@) == Some(dir@) && dir@.len() < path@.len(),
            None => path_parent(path@) is None,
        },
{
    Utf8Path::new(path).parent().map(|p| p.as_str().to_string())
}

/// The first component of a path, or `None` where it has none.
pub uninterp spec fn first_component(path: Seq<char>) -> Option<Seq<char>>;

/// `Utf8Path::components`: the first of them depends on the path alone.
#[verifier::external_body]
pub(crate) fn head(path: &str) -> (r: Option<String>)
    ensures
        match r {
            Some(c) => first_component(path@) == Some(c@),
            None => first_component(path@) is None,
        },
{
    Utf8Path::new(path).components().next().map(|c| c.as_str().to_string())
}

/// What follows the last dot in the last component of a path, or `None` where there is none.
pub uninterp spec fn path_extension(path: Seq<char>) -> Option<Seq<char>>;

/// `Utf8Path::extension`: the ending depends on the path alone.
#[verifier::external_body]
pub(crate) fn extension(path: &str) -> (r: Option<String>)
    ensures
        match r {
            Some(ending) => path_extension(path@) == Some(ending@),
            None => path_extension(path@) is None,
        },
{
    Utf8Path::new(path).extension().map(String::from)
}

/// The directories that hold a path, from the nearest on.
pub open spec fn dirs_above(path: Seq<char>) -> Seq<Seq<char>>
    decreases path.len(),
{
    match path_parent(path) {
        Some(dir) => if dir.len() < path.len() {
            seq![dir] + dirs_above(dir)
        } else {
            Seq::empty()
        },
        None => Seq::empty(),
    }
}

/// The directories that hold a path, from the nearest on.
pub fn ancestor_dirs(path: &str) -> (r: Vec<String>)
    ensures
        texts(r@) == dirs_above(path@),
{
    let mut dirs: Vec<String> = Vec::new();
    let mut at = copy_of(path);
    assert(texts(dirs@) =~= Seq::empty());
    assert(texts(dirs@) + dirs_above(path@) =~= dirs_above(path@));
    loop
        invariant
            texts(dirs@) + dirs_above(at@) == dirs_above(path@),
        decreases at@.len(),
    {
        match parent(at.as_str()) {
            None => {
                assert(texts(dirs@) + dirs_above(at@) =~= texts(dirs@));
                return dirs;
            },
            Some(dir) => {
                let ghost before = texts(dirs@);
                dirs.push(copy_of(dir.as_str()));
                proof {
                    assert(texts(dirs@) =~= before.push(dir@));
                    assert(before + (seq![dir@] + dirs_above(dir@)) =~= before.push(dir@)
                        + dirs_above(dir@));
                }
                at = dir;
            },
        }
    }
}

/// The first of some directories that holds what is looked for, or `None` where none does.
pub open spec fn first_holding(dirs: Seq<Seq<char>>, holds: Seq<bool>, i: int) -> Option<Seq<char>>
    decreases dirs.len() - i,
{
    if i >= dirs.len() {
        None
    } else if holds[i] {
        Some(dirs[i])
    } else {
        first_holding(dirs, holds, i + 1)
    }
}

/// The first of some directories that holds what is looked for. `holds` says which do.
pub fn nearest_dir(dirs: &Vec<String>, holds: &Vec<bool>) -> (r: Option<String>)
    requires
        holds@.len() == dirs@.len(),
    ensures
        match r {
            Some(dir) => first_holding(texts(dirs@), holds@, 0) == Some(dir@),
            None => first_holding(texts(dirs@), holds@, 0) is None,
        },
{
    let ghost all = texts(dirs@);
    let mut i: usize = 0;
    while i < dirs.len()
        invariant
            i <= dirs@.len(),
            holds@.len() == dirs@.len(),
            all == texts(dirs@),
            first_holding(all, holds@, 0) == first_holding(all, holds@, i as int),
        decreases dirs@.len() - i,
    {
        if holds[i] {
            assert(all[i as int] == dirs@[i as int]@);
            return Some(copy_of(dirs[i].as_str()));
        }
        i += 1;
    }
    None
}

/// A path as it is shown: from the root on, or whole where it does not lie below the root.
pub open spec fn shown_path(path: Seq<char>, root: Seq<char>) -> Seq<char> {
    match path_below(path, root) {
        Some(rel) => rel,
        None => path,
    }
}

/// A path as it is shown.
pub fn relative_path(path: &str, root: &str) -> (r: String)
    ensures
        r@ == shown_path(path@, root@),
{
    match strip_prefix(path, root) {
        Some(rel) => rel,
        None => copy_of(path),
    }
}

} // verus!
