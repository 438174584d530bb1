//! Paths of files as text.

use vstd::prelude::*;

verus! {

/// The text of `Path::parent`.
pub uninterp spec fn path_parent(path: Seq<char>) -> Option<Seq<char>>;

/// The text of `Path::file_stem`.
pub uninterp spec fn path_stem(path: Seq<char>) -> Option<Seq<char>>;

/// The text of `Path::join`.
pub uninterp spec fn path_join(dir: Seq<char>, file: Seq<char>) -> Seq<char>;

/// One past the last place before `end` where `c` stands, 0 where there is none.
pub open spec fn after_last(s: Seq<char>, c: char, end: nat) -> nat
    decreases end,
{
    if end == 0 {
        0
    } else if s[end - 1] == c {
        end
    } else {
        after_last(s, c, (end - 1) as nat)
    }
}

/// The path is a file name and nothing else.
pub open spec fn is_plain(path: Seq<char>) -> bool {
    &&& path.len() > 0
    &&& path != "."@
    &&& path != ".."@
    &&& forall|i: int|
        0 <= i < path.len() ==> #[trigger] path[i] != '/' && path[i] != '\\' && path[i] != ':'
}

/// The file name without the last dot and what follows; a dot in front stays.
pub open spec fn name_stem(name: Seq<char>) -> Seq<char> {
    let dot = after_last(name, '.', name.len());
    if dot <= 1 {
        name
    } else {
        name.take(dot - 1)
    }
}

/// The text of an optional string.
pub open spec fn opt_text(s: Option<String>) -> Option<Seq<char>> {
    match s {
        Some(s) => Some(s@),
        None => None,
    }
}

/// `std::path::Path::parent` of a path given as text.
///
/// The result is a function of the path, in the path syntax of the target. An empty
/// path has no parent, and that of a single file name is empty.
#[verifier::external_body]
pub(crate) fn parent(path: &str) -> (r: Option<String>)
    ensures
        opt_text(r) == path_parent(path@),
        path@.len() == 0 ==> r is None,
        is_plain(path@) ==> opt_text(r) == Some(""@),
{
    std::path::Path::new(path).parent().and_then(|p| p.to_str()).map(String::from)
}

/// `std::path::Path::file_stem` of a path given as text.
///
/// The result is a function of the path, in the path syntax of the target. Of a
/// single file name it is the part before the last dot, or all of it where there is
/// no dot but in front.
#[verifier::external_body]
pub(crate) fn stem(path: &str) -> (r: Option<String>)
    ensures
        opt_text(r) == path_stem(path@),
        is_plain(path@) ==> opt_text(r) == Some(name_stem(path@)),
{
    std::path::Path::new(path).file_stem().and_then(|s| s.to_str()).map(String::from)
}

/// `std::path::Path::join` of a directory and a file, given as text.
///
/// The result is a function of the two, in the path syntax of the target.
#[verifier::external_body]
pub(crate) fn join(dir: &str, file: &str) -> (r: String)
    ensures
        r@ == path_join(dir@, file@),
{
    std::path::Path::new(dir).join(file).display().to_string()
}

} // verus!
