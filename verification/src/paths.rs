//! Paths as text: the parts of a path that the pipeline decides on.

use vstd::prelude::*;

verus! {

/// The parent of `path`, as `std::path::Path::parent` gives it in the path
/// syntax of the platform.
pub uninterp spec fn parent_of(path: Seq<char>) -> Option<Seq<char>>;

/// The file name of `path`, as `std::path::Path::file_name` gives it: the
/// final component of the path, if it has one that is a name.
pub uninterp spec fn file_name_of(path: Seq<char>) -> Option<Seq<char>>;

/// The index of the last dot in `name`, or -1 where it has none.
pub open spec fn last_dot(name: Seq<char>) -> int
    decreases name.len(),
{
    if name.len() == 0 {
        -1
    } else if name.last() == '.' {
        name.len() - 1
    } else {
        last_dot(name.drop_last())
    }
}

/// The extension of a file name: what follows its last dot. A name without a
/// dot has none, nor has a name whose only dot is its first character.
pub open spec fn extension_in(name: Seq<char>) -> Option<Seq<char>> {
    let dot = last_dot(name);
    if dot <= 0 {
        None
    } else {
        Some(name.skip(dot + 1))
    }
}

/// The stem of a file name: what precedes its last dot, or the whole name
/// where it has no extension.
pub open spec fn stem_in(name: Seq<char>) -> Seq<char> {
    let dot = last_dot(name);
    if dot <= 0 {
        name
    } else {
        name.take(dot)
    }
}

/// The extension of `path`: that of its file name.
pub open spec fn extension_of(path: Seq<char>) -> Option<Seq<char>> {
    match file_name_of(path) {
        Some(name) => extension_in(name),
        None => None,
    }
}

/// The file stem of `path`: that of its file name.
pub open spec fn file_stem_of(path: Seq<char>) -> Option<Seq<char>> {
    match file_name_of(path) {
        Some(name) => Some(stem_in(name)),
        None => None,
    }
}

/// `name` joined to `dir`, as `std::path::Path::join` gives it.
pub uninterp spec fn path_joined(dir: Seq<char>, name: Seq<char>) -> Seq<char>;

/// The model of an optional string.
pub open spec fn text_of(value: Option<String>) -> Option<Seq<char>> {
    match value {
        Some(text) => Some(text@),
        None => None,
    }
}

/// Calls `std::path::Path::parent`. Trusted: the result is the path without
/// its final component, if there is one, and depends on the path alone.
#[verifier::external_body]
pub(crate) fn parent_dir(path: &str) -> (parent: Option<String>)
    ensures
        text_of(parent) == parent_of(path@),
{
    std::path::Path::new(path).parent().map(|p| p.to_string_lossy().into_owned())
}

/// Calls `std::path::Path::file_stem`. Trusted: a path without a file name
/// has no stem; else the stem is the file name up to its last dot, or the
/// whole file name where it has no dot or only the one it begins with.
#[verifier::external_body]
pub(crate) fn file_stem(path: &str) -> (stem: Option<String>)
    ensures
        text_of(stem) == match file_name_of(path@) {
            Some(name) => Some(stem_in(name)),
            None => None,
        },
{
    std::path::Path::new(path).file_stem().map(|s| s.to_string_lossy().into_owned())
}

/// Calls `std::path::Path::extension`. Trusted: a path without a file name
/// has no extension, nor has one whose file name has no dot or only the one
/// it begins with; else the extension is what follows the last dot of the
/// file name.
#[verifier::external_body]
pub(crate) fn extension(path: &str) -> (found: Option<String>)
    ensures
        text_of(found) == match file_name_of(path@) {
            Some(name) => extension_in(name),
            None => None,
        },
{
    std::path::Path::new(path).extension().map(|e| e.to_string_lossy().into_owned())
}

/// Calls `std::path::Path::join`. Trusted: the result depends on the two
/// paths alone.
#[verifier::external_body]
pub(crate) fn join_path(dir: &str, name: &str) -> (joined: String)
    ensures
        joined@ == path_joined(dir@, name@),
{
    std::path::Path::new(dir).join(name).to_string_lossy().into_owned()
}

/// Whether the path has the extension `wanted`.
pub fn has_extension(path: &str, wanted: &str) -> (has: bool)
    ensures
        has == (extension_of(path@) == Some(wanted@)),
{
    match extension(path) {
        Some(found) => found.as_str().eq(wanted),
        None => false,
    }
}

/// The predicate "is a path with the extension `xml`".
pub open spec fn is_document_path() -> spec_fn(Seq<char>) -> bool {
    |path: Seq<char>| extension_of(path) == Some("xml"@)
}

/// The source documents among `paths`: those with the extension `xml`, in
/// the order in which they were found.
pub fn select_documents(paths: &Vec<String>) -> (documents: Vec<String>)
    ensures
        documents.deep_view() == paths.deep_view().filter(is_document_path()),
{
    let ghost all = paths.deep_view();
    let mut documents: Vec<String> = Vec::new();
    let mut i: usize = 0;
    assert(documents.deep_view() =~= all.take(0).filter(is_document_path()));
    while i < paths.len()
        invariant
            i <= paths.len(),
            all == paths.deep_view(),
            documents.deep_view() == all.take(i as int).filter(is_document_path()),
        decreases paths.len() - i,
    {
        proof {
            assert(all.take(i + 1) =~= all.take(i as int).push(paths@[i as int]@));
            all.take(i as int).lemma_filter_push(paths@[i as int]@, is_document_path());
        }
        if has_extension(paths[i].as_str(), "xml") {
            let ghost before = documents.deep_view();
            let path = paths[i].clone();
            documents.push(path);
            assert(documents.deep_view() =~= before.push(path@));
        }
        i += 1;
    }
    assert(all.take(paths@.len() as int) =~= all);
    documents
}

} // verus!
