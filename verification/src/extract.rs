//! The archive extraction engine: which files are archives, how each kind is
//! unpacked and where to, and when the source archive is removed.

use crate::paths::{
    extension, extension_of, file_stem, file_stem_of, join_path, parent_dir, parent_of,
    path_joined, text_of,
};
use crate::text::chars_of;
use vstd::prelude::*;

verus! {

/// The paths that a set of visited directories holds.
pub uninterp spec fn visited_paths(visited: &dashmap::DashSet<String>) -> Set<Seq<char>>;

/// The set type of the `dashmap` crate, which many threads may share.
#[verifier::external_type_specification]
#[verifier::external_body]
#[verifier::reject_recursive_types(K)]
#[verifier::reject_recursive_types(S)]
pub struct ExDashSet<K, S>(dashmap::DashSet<K, S>);

/// Calls `dashmap::DashSet::new`. Trusted: a new set holds nothing.
#[verifier::external_body]
fn visited_new() -> (visited: dashmap::DashSet<String>)
    ensures
        visited_paths(&visited) == Set::<Seq<char>>::empty(),
{
    dashmap::DashSet::new()
}

/// Calls `dashmap::DashSet::contains`. Trusted: the result tells whether the
/// set holds the path.
#[verifier::external_body]
fn visited_contains(visited: &dashmap::DashSet<String>, path: &str) -> (held: bool)
    ensures
        held == visited_paths(visited).contains(path@),
{
    visited.contains(path)
}

/// Calls `dashmap::DashSet::insert`. Trusted: afterwards the set holds the
/// path besides what it held, and the result tells whether the path is new.
#[verifier::external_body]
fn visited_insert(visited: &mut dashmap::DashSet<String>, path: String) -> (fresh: bool)
    ensures
        visited_paths(final(visited)) == visited_paths(old(visited)).insert(path@),
        fresh == !visited_paths(old(visited)).contains(path@),
{
    visited.insert(path)
}

/// The kinds of archive that are unpacked.
#[derive(Debug, Clone, Copy, PartialEq, Eq, Structural)]
pub enum ArchiveKind {
    /// One file, compressed with gzip.
    Gzip,
    /// A tar archive, compressed with gzip.
    TarGzip,
    /// A tar archive.
    Tar,
    /// A zip archive.
    Zip,
}

/// Why an archive was not extracted.
#[derive(Debug, Clone, PartialEq, Eq)]
pub enum ExtractError {
    /// The path has no parent directory.
    NoParent,
    /// The path has no file stem.
    NoFileStem,
    /// The path has no extension.
    NoExtension,
    /// The extension is none of `gz`, `tar`, `zip`.
    Unsupported { extension: String },
    /// The archive could not be unpacked.
    Unpack,
    /// The archive was unpacked, but could not be removed.
    Delete,
    /// An event came that the state of the extraction does not allow.
    OutOfTurn,
}

/// Whether `text` ends with `suffix`.
pub open spec fn ends_with(text: Seq<char>, suffix: Seq<char>) -> bool {
    text.len() >= suffix.len() && text.subrange(text.len() - suffix.len(), text.len() as int)
        == suffix
}

/// Tests whether `text` ends with `suffix`.
pub fn str_ends_with(text: &str, suffix: &str) -> (ends: bool)
    ensures
        ends == ends_with(text@, suffix@),
{
    let a = chars_of(text);
    let b = chars_of(suffix);
    if a.len() < b.len() {
        return false;
    }
    let offset = a.len() - b.len();
    let ghost tail = a@.subrange(offset as int, a.len() as int);
    let mut i: usize = 0;
    while i < b.len()
        invariant
            i <= b.len(),
            a@ == text@,
            b@ == suffix@,
            offset + b.len() == a.len(),
            tail == a@.subrange(offset as int, a.len() as int),
            forall|k: int| 0 <= k < i ==> a@[offset + k] == b@[k],
        decreases b.len() - i,
    {
        if a[offset + i] != b[i] {
            assert(tail[i as int] != b@[i as int]);
            return false;
        }
        i += 1;
    }
    assert(tail =~= b@);
    true
}

/// The kind of archive that an extension and a file stem tell: `gz` is a
/// compressed tar archive where the stem ends in `.tar`, else a compressed
/// file; `tar` and `zip` are what they say; anything else is unsupported.
pub open spec fn kind_of(extension: Seq<char>, stem: Seq<char>) -> Option<ArchiveKind> {
    if extension == "gz"@ {
        if ends_with(stem, ".tar"@) {
            Some(ArchiveKind::TarGzip)
        } else {
            Some(ArchiveKind::Gzip)
        }
    } else if extension == "tar"@ {
        Some(ArchiveKind::Tar)
    } else if extension == "zip"@ {
        Some(ArchiveKind::Zip)
    } else {
        None
    }
}

/// The kind of archive that an extension and a file stem tell.
pub fn archive_kind(extension: &str, stem: &str) -> (kind: Option<ArchiveKind>)
    ensures
        kind == kind_of(extension@, stem@),
{
    if extension.eq("gz") {
        if str_ends_with(stem, ".tar") {
            Some(ArchiveKind::TarGzip)
        } else {
            Some(ArchiveKind::Gzip)
        }
    } else if extension.eq("tar") {
        Some(ArchiveKind::Tar)
    } else if extension.eq("zip") {
        Some(ArchiveKind::Zip)
    } else {
        None
    }
}

/// How one archive is unpacked.
#[derive(Debug, Clone, PartialEq, Eq)]
pub struct ExtractionPlan {
    /// The kind of the archive.
    pub kind: ArchiveKind,
    /// The path of the archive.
    pub source: String,
    /// The directory that receives the contents: the archive's own.
    pub output_dir: String,
    /// For a compressed file, the path of the file that is written: the
    /// archive's path without its extension.
    pub output_file: Option<String>,
}

/// Whether `plan` is the way to unpack the archive at `path`, whose parent,
/// stem and extension are given.
pub open spec fn plan_for(
    plan: ExtractionPlan,
    path: Seq<char>,
    parent: Seq<char>,
    stem: Seq<char>,
    extension: Seq<char>,
) -> bool {
    &&& Some(plan.kind) == kind_of(extension, stem)
    &&& plan.source@ == path
    &&& plan.output_dir@ == parent
    &&& text_of(plan.output_file) == if plan.kind == ArchiveKind::Gzip {
        Some(path_joined(parent, stem))
    } else {
        None
    }
}

/// Whether `result` is what planning the extraction of `path` gives, from
/// the parent, the stem and the extension that the path has.
pub open spec fn planned(
    result: Result<ExtractionPlan, ExtractError>,
    path: Seq<char>,
    parent: Option<Seq<char>>,
    stem: Option<Seq<char>>,
    extension: Option<Seq<char>>,
) -> bool {
    match (parent, stem, extension) {
        (None, _, _) => result matches Err(ExtractError::NoParent),
        (Some(_), None, _) => result matches Err(ExtractError::NoFileStem),
        (Some(_), Some(_), None) => result matches Err(ExtractError::NoExtension),
        (Some(dir), Some(name), Some(ext)) => match kind_of(ext, name) {
            None => result matches Err(ExtractError::Unsupported { extension: e }) && e@ == ext,
            Some(_) => result matches Ok(plan) && plan_for(plan, path, dir, name, ext),
        },
    }
}

/// Plans the extraction of the archive at `path` from the parts of the path.
pub fn plan_from_parts(
    path: &str,
    parent: Option<String>,
    stem: Option<String>,
    extension: Option<String>,
) -> (result: Result<ExtractionPlan, ExtractError>)
    ensures
        planned(result, path@, text_of(parent), text_of(stem), text_of(extension)),
{
    let output_dir = match parent {
        Some(found) => found,
        None => { return Err(ExtractError::NoParent); },
    };
    let name = match stem {
        Some(found) => found,
        None => { return Err(ExtractError::NoFileStem); },
    };
    let ext = match extension {
        Some(found) => found,
        None => { return Err(ExtractError::NoExtension); },
    };
    let kind = match archive_kind(ext.as_str(), name.as_str()) {
        Some(found) => found,
        None => { return Err(ExtractError::Unsupported { extension: ext }); },
    };
    let output_file = match kind {
        ArchiveKind::Gzip => Some(join_path(output_dir.as_str(), name.as_str())),
        _ => None,
    };
    Ok(ExtractionPlan { kind, source: path.to_owned(), output_dir, output_file })
}

/// Plans the extraction of the archive at `path`.
pub fn plan_extraction(path: &str) -> (result: Result<ExtractionPlan, ExtractError>)
    ensures
        planned(result, path@, parent_of(path@), file_stem_of(path@), extension_of(path@)),
{
    let parent = parent_dir(path);
    let stem = file_stem(path);
    let ext = extension(path);
    plan_from_parts(path, parent, stem, ext)
}

/// How far the extraction of one archive has come.
#[derive(Debug, Clone, Copy, PartialEq, Eq, Structural)]
pub enum ExtractState {
    /// Nothing has been done.
    Start,
    /// The archive is being unpacked.
    Unpacking,
    /// The archive is being removed.
    Deleting,
    /// The extraction has ended.
    Done,
}

/// What has happened since the last step.
#[derive(Debug, Clone, Copy, PartialEq, Eq, Structural)]
pub enum ExtractEvent {
    /// The extraction is to begin.
    Begin,
    /// The archive was unpacked in full, or could not be.
    Unpacked { ok: bool },
    /// The archive was removed, or could not be.
    Deleted { ok: bool },
}

/// What is to be done next.
#[derive(Debug, PartialEq, Eq)]
pub enum ExtractAction {
    /// Unpack the archive as the plan says.
    Unpack { plan: ExtractionPlan },
    /// Remove the archive at `path`.
    Delete { path: String },
    /// Report the result; nothing more is to be done.
    Finish { result: Result<(), ExtractError> },
}

/// The action "finish with the error `error`", for an error that carries no
/// text.
pub open spec fn fails_with(action: ExtractAction, error: ExtractError) -> bool {
    action matches ExtractAction::Finish { result: Err(e) } && e == error
}

/// One step of the extraction of the archive at `path`: from `state`, on
/// `event`, to `next` with `action` to be done.
///
/// The archive is unpacked as its plan says, or the extraction ends with the
/// reason why there is no plan. An archive that was unpacked in full is
/// removed where that is asked for, and only then.
pub open spec fn extraction_step(
    path: Seq<char>,
    delete_after_extract: bool,
    state: ExtractState,
    event: ExtractEvent,
    next: ExtractState,
    action: ExtractAction,
) -> bool {
    match (state, event) {
        (ExtractState::Start, ExtractEvent::Begin) => match action {
            ExtractAction::Unpack { plan } => next is Unpacking && planned(
                Ok(plan),
                path,
                parent_of(path),
                file_stem_of(path),
                extension_of(path),
            ),
            ExtractAction::Finish { result: Err(error) } => next is Done && planned(
                Err(error),
                path,
                parent_of(path),
                file_stem_of(path),
                extension_of(path),
            ),
            _ => false,
        },
        (ExtractState::Unpacking, ExtractEvent::Unpacked { ok }) => {
            if !ok {
                next is Done && fails_with(action, ExtractError::Unpack)
            } else if delete_after_extract {
                next is Deleting && (action matches ExtractAction::Delete { path: p } && p@
                    == path)
            } else {
                next is Done && (action matches ExtractAction::Finish { result: Ok(()) })
            }
        },
        (ExtractState::Deleting, ExtractEvent::Deleted { ok }) => {
            if ok {
                next is Done && (action matches ExtractAction::Finish { result: Ok(()) })
            } else {
                next is Done && fails_with(action, ExtractError::Delete)
            }
        },
        _ => next is Done && fails_with(action, ExtractError::OutOfTurn),
    }
}

/// Takes one step of the extraction of the archive at `file_path`: given the
/// state and what has happened, the next state and what is to be done.
pub fn extract_file(
    file_path: &str,
    delete_after_extract: bool,
    state: ExtractState,
    event: ExtractEvent,
) -> (step: (ExtractState, ExtractAction))
    ensures
        extraction_step(file_path@, delete_after_extract, state, event, step.0, step.1),
{
    match (state, event) {
        (ExtractState::Start, ExtractEvent::Begin) => match plan_extraction(file_path) {
            Ok(plan) => (ExtractState::Unpacking, ExtractAction::Unpack { plan }),
            Err(error) => (ExtractState::Done, ExtractAction::Finish { result: Err(error) }),
        },
        (ExtractState::Unpacking, ExtractEvent::Unpacked { ok }) => {
            if !ok {
                (ExtractState::Done, ExtractAction::Finish { result: Err(ExtractError::Unpack) })
            } else if delete_after_extract {
                (ExtractState::Deleting, ExtractAction::Delete { path: file_path.to_owned() })
            } else {
                (ExtractState::Done, ExtractAction::Finish { result: Ok(()) })
            }
        },
        (ExtractState::Deleting, ExtractEvent::Deleted { ok }) => {
            if ok {
                (ExtractState::Done, ExtractAction::Finish { result: Ok(()) })
            } else {
                (ExtractState::Done, ExtractAction::Finish { result: Err(ExtractError::Delete) })
            }
        },
        _ => (ExtractState::Done, ExtractAction::Finish { result: Err(ExtractError::OutOfTurn) }),
    }
}

/// An archive is removed in one case only: removal is asked for, and the
/// archive has been unpacked in full.
pub proof fn lemma_delete_only_after_unpacking(
    path: Seq<char>,
    delete_after_extract: bool,
    state: ExtractState,
    event: ExtractEvent,
    next: ExtractState,
    action: ExtractAction,
)
    requires
        extraction_step(path, delete_after_extract, state, event, next, action),
        action is Delete,
    ensures
        delete_after_extract,
        state is Unpacking,
        event == (ExtractEvent::Unpacked { ok: true }),
{
}

/// A file whose extension is none of `gz`, `tar`, `zip` is not unpacked: the
/// extraction ends at once, with the extension in the error.
pub proof fn lemma_unsupported_is_rejected(
    path: Seq<char>,
    delete_after_extract: bool,
    next: ExtractState,
    action: ExtractAction,
)
    requires
        extraction_step(
            path,
            delete_after_extract,
            ExtractState::Start,
            ExtractEvent::Begin,
            next,
            action,
        ),
        parent_of(path) is Some,
        file_stem_of(path) is Some,
        extension_of(path) matches Some(ext) && !is_archive_extension(ext),
    ensures
        next is Done,
        action matches ExtractAction::Finish {
            result: Err(ExtractError::Unsupported { extension }),
        } && Some(extension@) == extension_of(path),
{
}

/// Where one entry of a zip archive goes.
#[derive(Debug, Clone, PartialEq, Eq)]
pub enum ZipEntryTarget {
    /// The entry is a directory, to be created at `path` with its parents.
    Directory { path: String },
    /// The entry is a file, to be written at `path`; `parent`, where there is
    /// one, is created first if it does not exist.
    File { path: String, parent: Option<String> },
}

/// Whether `target` is where the entry `name` of a zip archive goes under
/// `output_dir`: a name that ends with a slash is a directory, any other a
/// file.
pub open spec fn zip_target(
    target: ZipEntryTarget,
    output_dir: Seq<char>,
    name: Seq<char>,
) -> bool {
    let path = path_joined(output_dir, name);
    if ends_with(name, "/"@) {
        target matches ZipEntryTarget::Directory { path: p } && p@ == path
    } else {
        target matches ZipEntryTarget::File { path: p, parent } && p@ == path && text_of(parent)
            == parent_of(path)
    }
}

/// Where the entry `entry_name` of a zip archive goes under `output_dir`.
pub fn zip_entry_target(output_dir: &str, entry_name: &str) -> (target: ZipEntryTarget)
    ensures
        zip_target(target, output_dir@, entry_name@),
{
    let path = join_path(output_dir, entry_name);
    if str_ends_with(entry_name, "/") {
        ZipEntryTarget::Directory { path }
    } else {
        let parent = parent_dir(path.as_str());
        ZipEntryTarget::File { path, parent }
    }
}

/// Whether files with this extension are unpacked.
pub open spec fn is_archive_extension(extension: Seq<char>) -> bool {
    extension == "gz"@ || extension == "zip"@ || extension == "tar"@
}

/// Tests whether files with this extension are unpacked.
pub fn archive_extension(extension: &str) -> (unpacked: bool)
    ensures
        unpacked == is_archive_extension(extension@),
{
    extension.eq("gz") || extension.eq("zip") || extension.eq("tar")
}

/// One entry of a directory: its path, and whether it is a regular file.
#[derive(Debug, Clone, PartialEq, Eq)]
pub struct DirectoryEntry {
    pub path: String,
    pub is_file: bool,
}

/// The predicate "is a regular file with the extension of an archive".
pub open spec fn is_archive_entry() -> spec_fn(DirectoryEntry) -> bool {
    |entry: DirectoryEntry|
        entry.is_file && (extension_of(entry.path@) matches Some(ext) && is_archive_extension(
            ext,
        ))
}

/// The path of an entry.
pub open spec fn entry_path() -> spec_fn(DirectoryEntry) -> Seq<char> {
    |entry: DirectoryEntry| entry.path@
}

/// The archives among the entries of a directory: the regular files whose
/// extension is `gz`, `zip` or `tar`. Other entries are passed over.
pub fn select_archives(entries: &Vec<DirectoryEntry>) -> (archives: Vec<String>)
    ensures
        archives.deep_view() == entries@.filter(is_archive_entry()).map_values(entry_path()),
{
    let mut archives: Vec<String> = Vec::new();
    let mut i: usize = 0;
    assert(archives.deep_view() =~= entries@.take(0).filter(is_archive_entry()).map_values(
        entry_path(),
    ));
    while i < entries.len()
        invariant
            i <= entries.len(),
            archives.deep_view() == entries@.take(i as int).filter(is_archive_entry()).map_values(
                entry_path(),
            ),
        decreases entries.len() - i,
    {
        let entry = &entries[i];
        proof {
            assert(entries@.take(i + 1) =~= entries@.take(i as int).push(*entry));
            entries@.take(i as int).lemma_filter_push(*entry, is_archive_entry());
        }
        let wanted = entry.is_file && match extension(entry.path.as_str()) {
            Some(ext) => archive_extension(ext.as_str()),
            None => false,
        };
        if wanted {
            let ghost before = archives.deep_view();
            let path = entry.path.clone();
            archives.push(path);
            assert(archives.deep_view() =~= before.push(path@));
            assert(archives.deep_view() =~= entries@.take(i + 1).filter(
                is_archive_entry(),
            ).map_values(entry_path()));
        }
        i += 1;
    }
    assert(entries@.take(entries@.len() as int) =~= entries@);
    archives
}

/// What is to be done with one directory.
#[derive(Debug, Clone, PartialEq, Eq)]
pub enum DirectoryPlan {
    /// Nothing: the directory could not be read, or holds no archive.
    Skip,
    /// Extract these archives, each on its own: one that fails is reported
    /// and the others go on.
    Extract { archives: Vec<String> },
}

/// Whether `plan` is what is to be done with a directory whose entries are
/// `listing`, or which could not be read where there is no listing. A
/// directory that cannot be read is passed over; it is no failure.
pub open spec fn directory_plan(
    plan: DirectoryPlan,
    listing: Option<Seq<DirectoryEntry>>,
) -> bool {
    match listing {
        None => plan is Skip,
        Some(entries) => {
            let wanted = entries.filter(is_archive_entry()).map_values(entry_path());
            if wanted.len() == 0 {
                plan is Skip
            } else {
                plan matches DirectoryPlan::Extract { archives } && archives.deep_view() == wanted
            }
        },
    }
}

/// The model of an optional listing.
pub open spec fn listing_of(listing: Option<&Vec<DirectoryEntry>>) -> Option<
    Seq<DirectoryEntry>,
> {
    match listing {
        Some(entries) => Some(entries@),
        None => None,
    }
}

/// Plans the work on one directory from its listing; `None` stands for a
/// directory that could not be read.
pub fn process_directory(listing: Option<&Vec<DirectoryEntry>>) -> (plan: DirectoryPlan)
    ensures
        directory_plan(plan, listing_of(listing)),
{
    match listing {
        None => DirectoryPlan::Skip,
        Some(entries) => {
            let archives = select_archives(entries);
            if archives.len() == 0 {
                DirectoryPlan::Skip
            } else {
                DirectoryPlan::Extract { archives }
            }
        },
    }
}

/// The items of `items` in order, each at its first place only.
pub open spec fn first_occurrences(items: Seq<Seq<char>>) -> Seq<Seq<char>>
    decreases items.len(),
{
    if items.len() == 0 {
        Seq::empty()
    } else {
        let before = first_occurrences(items.drop_last());
        if before.contains(items.last()) {
            before
        } else {
            before.push(items.last())
        }
    }
}

/// No item stands twice among the first occurrences, and they are the items
/// that were given.
pub proof fn lemma_first_occurrences(items: Seq<Seq<char>>)
    ensures
        first_occurrences(items).no_duplicates(),
        forall|item: Seq<char>| first_occurrences(items).contains(item) <==> items.contains(item),
    decreases items.len(),
{
    if items.len() > 0 {
        let before = first_occurrences(items.drop_last());
        let out = first_occurrences(items);
        lemma_first_occurrences(items.drop_last());
        assert forall|item: Seq<char>| out.contains(item) <==> items.contains(item) by {
            assert(before.contains(item) <==> items.drop_last().contains(item));
            if out.contains(item) {
                let k = choose|k: int| 0 <= k < out.len() && out[k] == item;
                if k < before.len() {
                    assert(before[k] == item);
                    assert(before.contains(item));
                    let m = choose|m: int|
                        0 <= m < items.drop_last().len() && items.drop_last()[m] == item;
                    assert(items[m] == item);
                } else {
                    assert(items[items.len() - 1] == item);
                }
            }
            if items.contains(item) {
                let k = choose|k: int| 0 <= k < items.len() && items[k] == item;
                if k < items.len() - 1 {
                    assert(items.drop_last()[k] == item);
                    assert(before.contains(item));
                    let m = choose|m: int| 0 <= m < before.len() && before[m] == item;
                    assert(out[m] == item);
                } else if before.contains(item) {
                } else {
                    assert(out[out.len() - 1] == item);
                }
            }
        }
    }
}

/// The directories to process, out of those that the walk found: each of
/// them once, in the order in which it was first found.
pub fn directories_to_process(found: &Vec<String>) -> (chosen: Vec<String>)
    ensures
        chosen.deep_view() == first_occurrences(found.deep_view()),
{
    let ghost all = found.deep_view();
    let mut visited = visited_new();
    let mut chosen: Vec<String> = Vec::new();
    let mut i: usize = 0;
    proof {
        assert(chosen.deep_view() =~= first_occurrences(all.take(0)));
        assert(chosen.deep_view().to_set() =~= Set::<Seq<char>>::empty());
    }
    while i < found.len()
        invariant
            i <= found.len(),
            all == found.deep_view(),
            chosen.deep_view() == first_occurrences(all.take(i as int)),
            visited_paths(&visited) == chosen.deep_view().to_set(),
        decreases found.len() - i,
    {
        proof {
            assert(all.take(i + 1).drop_last() =~= all.take(i as int));
            assert(all.take(i + 1).last() == found@[i as int]@);
        }
        let path = &found[i];
        if !visited_contains(&visited, path.as_str()) {
            let ghost before = chosen.deep_view();
            visited_insert(&mut visited, path.clone());
            let kept = path.clone();
            chosen.push(kept);
            proof {
                assert(chosen.deep_view() =~= before.push(path@));
                assert(before.push(path@).to_set() =~= before.to_set().insert(path@)) by {
                    assert forall|item: Seq<char>|
                        before.push(path@).to_set().contains(item) <==> before.to_set().insert(
                            path@,
                        ).contains(item) by {
                        if before.push(path@).contains(item) {
                            let k = choose|k: int|
                                0 <= k < before.push(path@).len() && before.push(path@)[k]
                                    == item;
                            if k < before.len() {
                                assert(before[k] == item);
                            }
                        }
                        if before.contains(item) {
                            let k = choose|k: int| 0 <= k < before.len() && before[k] == item;
                            assert(before.push(path@)[k] == item);
                        }
                        if item == path@ {
                            assert(before.push(path@)[before.len() as int] == item);
                        }
                    }
                }
            }
        }
        i += 1;
    }
    assert(all.take(found@.len() as int) =~= all);
    chosen
}

} // verus!
